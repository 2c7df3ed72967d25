use vstd::prelude::*;

verus! {

/// The character of a decimal digit.
pub open spec fn digit_char(d: nat) -> char {
    if d == 0 { '0' }
    else if d == 1 { '1' }
    else if d == 2 { '2' }
    else if d == 3 { '3' }
    else if d == 4 { '4' }
    else if d == 5 { '5' }
    else if d == 6 { '6' }
    else if d == 7 { '7' }
    else if d == 8 { '8' }
    else { '9' }
}

/// The decimal notation of `n`, without leading zeros.
pub open spec fn decimal(n: nat) -> Seq<char>
    decreases n,
{
    if n < 10 {
        seq![digit_char(n)]
    } else {
        decimal(n / 10).push(digit_char(n % 10))
    }
}

fn append_digit(s: &mut String, d: u64)
    requires
        d < 10,
    ensures
        final(s)@ == old(s)@.push(digit_char(d as nat)),
{
    let lit: &str = if d == 0 { "0" }
    else if d == 1 { "1" }
    else if d == 2 { "2" }
    else if d == 3 { "3" }
    else if d == 4 { "4" }
    else if d == 5 { "5" }
    else if d == 6 { "6" }
    else if d == 7 { "7" }
    else if d == 8 { "8" }
    else { "9" };
    proof {
        reveal_strlit("0");
        reveal_strlit("1");
        reveal_strlit("2");
        reveal_strlit("3");
        reveal_strlit("4");
        reveal_strlit("5");
        reveal_strlit("6");
        reveal_strlit("7");
        reveal_strlit("8");
        reveal_strlit("9");
    }
    s.append(lit);
}

/// Appends the decimal notation of `n` to `s`.
pub fn append_decimal(s: &mut String, n: u64)
    ensures
        final(s)@ == old(s)@ + decimal(n as nat),
    decreases n,
{
    if n < 10 {
        append_digit(s, n);
        assert(s@ =~= old(s)@ + decimal(n as nat));
    } else {
        append_decimal(s, n / 10);
        append_digit(s, n % 10);
        assert(s@ =~= old(s)@ + decimal(n as nat));
    }
}


/// `bytes ` as characters.
pub open spec fn bytes_prefix() -> Seq<char> {
    seq!['b', 'y', 't', 'e', 's', ' ']
}

/// The size field of a Content-Range header: the exact total when it is known,
/// else the wildcard `*`.
pub open spec fn total_field(total: Option<nat>) -> Seq<char> {
    match total {
        Some(t) => decimal(t),
        None => seq!['*'],
    }
}

/// The Content-Range header of a request that carries `len` bytes from offset
/// `start` on. A request of zero bytes has no byte interval to declare: its
/// header is `bytes */<size>`.
pub open spec fn content_range_of(start: nat, len: nat, total: Option<nat>) -> Seq<char> {
    if len == 0 {
        bytes_prefix() + seq!['*', '/'] + total_field(total)
    } else {
        bytes_prefix() + decimal(start) + seq!['-'] + decimal((start + len - 1) as nat) + seq!['/']
            + total_field(total)
    }
}

/// Builds the Content-Range header of a request that carries `len` bytes from
/// offset `start` on, with the total size when it is known.
pub fn content_range(start: u64, len: u64, total: Option<u64>) -> (r: String)
    requires
        start + len <= u64::MAX,
    ensures
        r@ == content_range_of(
            start as nat,
            len as nat,
            match total {
                Some(t) => Some(t as nat),
                None => None,
            },
        ),
{
    let mut r = String::new();
    proof {
        reveal_strlit("bytes ");
        reveal_strlit("*/");
        reveal_strlit("-");
        reveal_strlit("/");
        reveal_strlit("*");
    }
    r.append("bytes ");
    if len == 0 {
        r.append("*/");
    } else {
        append_decimal(&mut r, start);
        r.append("-");
        append_decimal(&mut r, start + len - 1);
        r.append("/");
    }
    match total {
        Some(t) => append_decimal(&mut r, t),
        None => r.append("*"),
    }
    let ghost tot = match total {
        Some(t) => Some(t as nat),
        None => None,
    };
    assert(r@ =~= content_range_of(start as nat, len as nat, tot));
    r
}

} // verus!

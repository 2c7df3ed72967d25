use vstd::prelude::*;

verus! {

/// The characters of each path component.
pub open spec fn component_views(c: Seq<String>) -> Seq<Seq<char>> {
    c.map_values(|s: String| s@)
}

/// Path components joined by `/`, the separator of archive entry names.
pub open spec fn join_components(c: Seq<Seq<char>>) -> Seq<char>
    decreases c.len(),
{
    if c.len() == 0 {
        Seq::empty()
    } else if c.len() == 1 {
        c[0]
    } else {
        join_components(c.drop_last()) + seq!['/'] + c.last()
    }
}

/// `base` is the leading part of `path`, component by component.
pub open spec fn is_prefix_of(base: Seq<Seq<char>>, path: Seq<Seq<char>>) -> bool {
    base.len() <= path.len() && path.take(base.len() as int) == base
}

/// The archive entry name of the file at `path` under the root `base`, both
/// given as path components: the components of `path` after those of `base`,
/// joined by `/`. There is none where `path` does not lie under `base`.
pub fn relative_entry_name(base: &Vec<String>, path: &Vec<String>) -> (r: Option<String>)
    ensures
        r is Some <==> is_prefix_of(component_views(base@), component_views(path@)),
        r is Some ==> r->0@ == join_components(
            component_views(path@).skip(base@.len() as int),
        ),
{
    let ghost bv = component_views(base@);
    let ghost pv = component_views(path@);
    if base.len() > path.len() {
        return None;
    }
    let mut i: usize = 0;
    while i < base.len()
        invariant
            i <= base@.len() <= path@.len(),
            bv == component_views(base@),
            pv == component_views(path@),
            forall|j: int| 0 <= j < i ==> #[trigger] pv[j] == bv[j],
        decreases base@.len() - i,
    {
        if base[i] != path[i] {
            proof {
                assert(pv.take(bv.len() as int)[i as int] != bv[i as int]);
            }
            return None;
        }
        i = i + 1;
    }
    proof {
        assert(pv.take(bv.len() as int) =~= bv);
    }
    let mut r = String::new();
    let mut k: usize = base.len();
    proof {
        assert(pv.subrange(bv.len() as int, k as int) =~= Seq::<Seq<char>>::empty());
    }
    while k < path.len()
        invariant
            base@.len() <= k <= path@.len(),
            bv == component_views(base@),
            pv == component_views(path@),
            r@ == join_components(pv.subrange(bv.len() as int, k as int)),
        decreases path@.len() - k,
    {
        let ghost done = pv.subrange(bv.len() as int, k as int);
        proof {
            reveal_strlit("/");
        }
        if k > base.len() {
            r.append("/");
        }
        r.append(path[k].as_str());
        proof {
            let next = pv.subrange(bv.len() as int, k + 1);
            assert(next.drop_last() =~= done);
            if k == base.len() {
                assert(r@ =~= pv[k as int]);
            } else {
                assert(r@ =~= join_components(done) + seq!['/'] + next.last());
            }
        }
        k = k + 1;
    }
    proof {
        assert(pv.subrange(bv.len() as int, k as int) =~= pv.skip(bv.len() as int));
    }
    Some(r)
}

} // verus!

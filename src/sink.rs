use vstd::arithmetic::div_mod::lemma_fundamental_div_mod_converse;
use vstd::prelude::*;

use crate::session::{Chunk, ChunkView, SessionPhase, StreamingUploader};

verus! {

/// The bytes of `chunks`, one chunk after another.
pub open spec fn concat_payloads(chunks: Seq<ChunkView>) -> Seq<u8>
    decreases chunks.len(),
{
    if chunks.len() == 0 {
        Seq::empty()
    } else {
        concat_payloads(chunks.drop_last()) + chunks.last().payload
    }
}

/// `s` with `w` written over it from position `at` on, growing it where `w`
/// runs past its end.
pub open spec fn splice(s: Seq<u8>, at: nat, w: Seq<u8>) -> Seq<u8> {
    if at + w.len() >= s.len() {
        s.take(at as int) + w
    } else {
        s.take(at as int) + w + s.skip((at + w.len()) as int)
    }
}

pub proof fn lemma_concat_push(chunks: Seq<ChunkView>, c: ChunkView)
    ensures
        concat_payloads(chunks.push(c)) == concat_payloads(chunks) + c.payload,
{
    assert(chunks.push(c).drop_last() =~= chunks);
}

/// Writing `w` and then `b` right after it is writing `w` followed by `b`.
pub proof fn lemma_splice_push(s: Seq<u8>, at: nat, w: Seq<u8>, b: u8)
    requires
        at <= s.len(),
    ensures
        splice(s, at, w.push(b)) == splice(splice(s, at, w), at + w.len(), seq![b]),
{
    let t = splice(s, at, w);
    assert(t.len() >= at + w.len());
    assert(t.take((at + w.len()) as int) =~= s.take(at as int) + w);
    if at + w.len() + 1 >= s.len() {
        assert(splice(s, at, w.push(b)) =~= splice(t, at + w.len(), seq![b]));
    } else {
        assert(t.skip((at + w.len() + 1) as int) =~= s.skip((at + w.len() + 1) as int));
        assert(splice(s, at, w.push(b)) =~= splice(t, at + w.len(), seq![b]));
    }
}

/// Where a write starts at the end of the stream, it appends.
pub proof fn lemma_write_at_end_appends(s: Seq<u8>, w: Seq<u8>)
    ensures
        splice(s, s.len(), w) == s + w,
{
    assert(s.take(s.len() as int) =~= s);
}

/// Where the seek target of a sink lands.
pub enum SeekTarget {
    /// An offset from the start of the archive.
    Start(u64),
    /// An offset from the current position.
    Current(i64),
    /// An offset from the end of what has been written.
    End(i64),
}

/// Why the sink refused a request.
#[derive(PartialEq, Eq, Structural, Debug, Clone, Copy)]
pub enum SinkError {
    /// The seek target is not within the bytes that are still buffered: they
    /// alone can be rewritten on a destination that is streamed.
    UnsupportedSeek,
}

/// A write-only sink that cuts the bytes written to it into chunks of a fixed
/// capacity and hands each full chunk out to be uploaded.
pub struct ChunkedStreamingUploader<H> {
    uploader: StreamingUploader<H>,
    intermediate_buffer: Vec<u8>,
    position: usize,
    chunk_size: usize,
    history: Ghost<Seq<ChunkView>>,
}

impl<H> ChunkedStreamingUploader<H> {
    pub closed spec fn session(&self) -> StreamingUploader<H> {
        self.uploader
    }

    pub closed spec fn capacity(&self) -> nat {
        self.chunk_size as nat
    }

    /// The bytes written and not yet handed out.
    pub closed spec fn buffered(&self) -> Seq<u8> {
        self.intermediate_buffer@
    }

    /// Every chunk handed out, in order.
    pub closed spec fn chunks(&self) -> Seq<ChunkView> {
        self.history@
    }

    /// The position of the next write within the buffered bytes.
    pub closed spec fn cursor(&self) -> nat {
        self.position as nat
    }

    pub open spec fn sent(&self) -> nat {
        self.session().bytes_sent()
    }

    pub open spec fn is_finalized(&self) -> bool {
        !(self.session().spec_phase() is Open)
    }

    /// The archive as written so far: what was handed out, then what is buffered.
    pub open spec fn stream(&self) -> Seq<u8> {
        concat_payloads(self.chunks()) + self.buffered()
    }

    /// The position of the next write in the archive.
    pub open spec fn pos(&self) -> nat {
        self.sent() + self.cursor()
    }

    pub closed spec fn wf(&self) -> bool {
        &&& self.inv()
        &&& self.intermediate_buffer@.len() < self.chunk_size
    }

    /// What holds between operations, and also while a full buffer waits to be
    /// handed out.
    closed spec fn inv(&self) -> bool {
        let h = self.history@;
        let sent = self.uploader.bytes_sent();
        &&& self.chunk_size > 0
        &&& self.uploader.wf()
        &&& self.intermediate_buffer@.len() <= self.chunk_size
        &&& self.position <= self.intermediate_buffer@.len()
        &&& concat_payloads(h).len() == sent
        &&& sent + self.intermediate_buffer@.len() <= u64::MAX
        &&& forall|i: int|
            0 <= i < h.len() ==> #[trigger] h[i].start == concat_payloads(h.take(i)).len()
        &&& forall|i: int|
            0 <= i < h.len() ==> (#[trigger] h[i]).is_final == (self.is_finalized() && i == h.len()
                - 1)
        &&& forall|i: int|
            0 <= i < h.len() ==> (#[trigger] h[i]).total == (if h[i].is_final {
                Some(sent)
            } else {
                None
            })
        &&& self.is_finalized() ==> self.intermediate_buffer@.len() == 0 && h.len() > 0
        &&& self.uploader.spec_phase() is Open || self.uploader.spec_phase() is Finalizing
        &&& self.is_finalized() ==> self.uploader.spec_total_size() == Some(sent)
    }

    /// A sink over the fresh session `uploader` that hands out chunks of
    /// `chunk_size` bytes.
    pub fn new(uploader: StreamingUploader<H>, chunk_size: usize) -> (r: Self)
        requires
            uploader.wf(),
            uploader.spec_phase() is Open,
            uploader.bytes_sent() == 0,
            chunk_size > 0,
        ensures
            r.wf(),
            r.session() == uploader,
            r.capacity() == chunk_size,
            r.chunks().len() == 0,
            r.buffered().len() == 0,
            r.cursor() == 0,
    {
        ChunkedStreamingUploader {
            uploader,
            intermediate_buffer: Vec::with_capacity(chunk_size),
            position: 0,
            chunk_size,
            history: Ghost(Seq::empty()),
        }
    }

    pub fn uploader(&self) -> (r: &StreamingUploader<H>)
        ensures
            *r == self.session(),
    {
        &self.uploader
    }

    pub fn chunk_size(&self) -> (r: usize)
        ensures
            r == self.capacity(),
    {
        self.chunk_size
    }

    /// The position of the next write in the archive.
    pub fn position(&self) -> (r: u64)
        requires
            self.wf(),
        ensures
            r == self.pos(),
    {
        self.uploader.bytes_uploaded() + self.position as u64
    }

    /// The number of bytes written and not yet handed out.
    pub fn buffered_len(&self) -> (r: usize)
        ensures
            r == self.buffered().len(),
    {
        self.intermediate_buffer.len()
    }
}


impl<H> ChunkedStreamingUploader<H> {
    /// Hands the buffered bytes out as one chunk and empties the buffer.
    fn emit(&mut self, is_final: bool) -> (r: Chunk)
        requires
            old(self).inv(),
            !old(self).is_finalized(),
        ensures
            final(self).wf(),
            r@ == (ChunkView {
                start: old(self).sent(),
                payload: old(self).buffered(),
                is_final,
                total: if is_final {
                    Some(old(self).sent() + old(self).buffered().len())
                } else {
                    None
                },
            }),
            final(self).chunks() == old(self).chunks().push(r@),
            final(self).buffered().len() == 0,
            final(self).cursor() == 0,
            final(self).sent() == old(self).sent() + old(self).buffered().len(),
            final(self).stream() == old(self).stream(),
            final(self).is_finalized() == is_final,
            final(self).session().spec_total_size() == r@.total,
            final(self).session().spec_phase() == (if is_final {
                SessionPhase::Finalizing
            } else {
                SessionPhase::Open
            }),
            final(self).capacity() == old(self).capacity(),
            final(self).session().pending() == old(self).session().pending(),
            final(self).session().spec_server_url() == old(self).session().spec_server_url(),
            final(self).session().spec_zip_file_name() == old(self).session().spec_zip_file_name(),
    {
        let ghost h = self.history@;
        let mut data: Vec<u8> = Vec::with_capacity(self.chunk_size);
        std::mem::swap(&mut data, &mut self.intermediate_buffer);
        let chunk = self.uploader.upload_chunk(data, is_final);
        self.position = 0;
        proof {
            lemma_concat_push(h, chunk@);
            let h2 = h.push(chunk@);
            assert forall|i: int| 0 <= i < h2.len() implies #[trigger] h2[i].start
                == concat_payloads(h2.take(i)).len() by {
                if i < h.len() {
                    assert(h2.take(i) =~= h.take(i));
                } else {
                    assert(h2.take(i) =~= h);
                }
            }
            self.history = Ghost(h2);
            assert(self.stream() =~= old(self).stream());
        }
        chunk
    }

    /// Hands out every buffered byte as a chunk that is not the last one, if any
    /// byte is buffered. The next write then goes to the end of the archive.
    pub fn flush_to_server(&mut self) -> (r: Option<Chunk>)
        requires
            old(self).wf(),
            !old(self).is_finalized(),
        ensures
            final(self).wf(),
            !final(self).is_finalized(),
            r is None <==> old(self).buffered().len() == 0,
            r is Some ==> r->0@ == (ChunkView {
                start: old(self).sent(),
                payload: old(self).buffered(),
                is_final: false,
                total: None,
            }) && final(self).chunks() == old(self).chunks().push(r->0@),
            r is None ==> final(self).chunks() == old(self).chunks(),
            final(self).buffered().len() == 0,
            final(self).stream() == old(self).stream(),
            final(self).pos() == old(self).stream().len(),
            final(self).capacity() == old(self).capacity(),
            final(self).session().pending() == old(self).session().pending(),
            final(self).session().spec_server_url() == old(self).session().spec_server_url(),
            final(self).session().spec_zip_file_name() == old(self).session().spec_zip_file_name(),
    {
        if self.intermediate_buffer.len() > 0 {
            Some(self.emit(false))
        } else {
            self.position = 0;
            None
        }
    }

    /// Writes one byte at the current position, and hands out the buffer as a
    /// chunk when that fills it.
    fn put_byte(&mut self, b: u8) -> (r: Option<Chunk>)
        requires
            old(self).wf(),
            !old(self).is_finalized(),
            old(self).pos() < u64::MAX,
        ensures
            final(self).wf(),
            !final(self).is_finalized(),
            final(self).stream() == splice(old(self).stream(), old(self).pos(), seq![b]),
            final(self).pos() == old(self).pos() + 1,
            r is Some ==> !r->0@.is_final && r->0@.payload.len() == old(self).capacity()
                && final(self).chunks() == old(self).chunks().push(r->0@)
                && final(self).sent() == old(self).sent() + old(self).capacity(),
            r is None ==> final(self).chunks() == old(self).chunks() && final(self).sent()
                == old(self).sent(),
            final(self).capacity() == old(self).capacity(),
            final(self).session().pending() == old(self).session().pending(),
            final(self).session().spec_server_url() == old(self).session().spec_server_url(),
            final(self).session().spec_zip_file_name() == old(self).session().spec_zip_file_name(),
    {
        let ghost old_stream = self.stream();
        let ghost prefix = concat_payloads(self.history@);
        if self.position < self.intermediate_buffer.len() {
            self.intermediate_buffer[self.position] = b;
        } else {
            self.intermediate_buffer.push(b);
        }
        self.position = self.position + 1;
        proof {
            let p = old(self).pos();
            if p + 1 >= old_stream.len() {
                assert(self.stream() =~= old_stream.take(p as int) + seq![b]);
            } else {
                assert(self.stream() =~= old_stream.take(p as int) + seq![b] + old_stream.skip(
                    (p + 1) as int,
                ));
            }
        }
        if self.intermediate_buffer.len() == self.chunk_size {
            Some(self.emit(false))
        } else {
            None
        }
    }
}

/// The views of `chunks`, in order.
pub open spec fn views(chunks: Seq<Chunk>) -> Seq<ChunkView> {
    chunks.map_values(|c: Chunk| c@)
}

impl<H> ChunkedStreamingUploader<H> {
    /// Writes `buf` at the current position, and hands out, in order, each
    /// chunk that the write fills. A chunk handed out here holds exactly
    /// `capacity` bytes and is never the last one; fewer than `capacity` bytes
    /// stay buffered.
    pub fn write(&mut self, buf: &[u8]) -> (r: Vec<Chunk>)
        requires
            old(self).wf(),
            !old(self).is_finalized(),
            old(self).pos() + buf@.len() <= u64::MAX,
        ensures
            final(self).wf(),
            !final(self).is_finalized(),
            final(self).stream() == splice(old(self).stream(), old(self).pos(), buf@),
            old(self).pos() == old(self).stream().len() ==> final(self).stream() == old(
                self,
            ).stream() + buf@,
            final(self).pos() == old(self).pos() + buf@.len(),
            final(self).chunks() == old(self).chunks() + views(r@),
            forall|i: int|
                0 <= i < r@.len() ==> !(#[trigger] r@[i]).is_final && r@[i].payload@.len()
                    == old(self).capacity(),
            final(self).sent() == old(self).sent() + r@.len() * old(self).capacity(),
            r@.len() == (final(self).stream().len() - old(self).sent()) / (old(self).capacity() as int),
            final(self).buffered().len() == (final(self).stream().len() - old(self).sent()) % (
            old(self).capacity() as int),
            final(self).capacity() == old(self).capacity(),
            final(self).session().pending() == old(self).session().pending(),
            final(self).session().spec_server_url() == old(self).session().spec_server_url(),
            final(self).session().spec_zip_file_name() == old(self).session().spec_zip_file_name(),
    {
        let ghost s0 = self.stream();
        let ghost p0 = self.pos();
        let ghost h0 = self.chunks();
        let ghost sent0 = self.sent();
        let ghost cap = self.capacity();
        let mut r: Vec<Chunk> = Vec::new();
        let mut i: usize = 0;
        proof {
            if p0 == s0.len() {
                assert(s0.take(p0 as int) + buf@.take(0) =~= s0);
            } else {
                assert(s0.take(p0 as int) + buf@.take(0) + s0.skip(p0 as int) =~= s0);
            }
            assert(h0 + views(r@) =~= h0);
        }
        while i < buf.len()
            invariant
                i <= buf@.len(),
                p0 <= s0.len(),
                self.wf(),
                !self.is_finalized(),
                self.stream() == splice(s0, p0, buf@.take(i as int)),
                self.pos() == p0 + i,
                p0 + buf@.len() <= u64::MAX,
                self.chunks() == h0 + views(r@),
                forall|j: int|
                    0 <= j < r@.len() ==> !(#[trigger] r@[j]).is_final && r@[j].payload@.len()
                        == cap,
                self.sent() == sent0 + r@.len() * cap,
                self.capacity() == cap,
                self.session().pending() == old(self).session().pending(),
                self.session().spec_server_url() == old(self).session().spec_server_url(),
                self.session().spec_zip_file_name() == old(self).session().spec_zip_file_name(),
            decreases buf@.len() - i,
        {
            let ghost before = r@;
            let out = self.put_byte(buf[i]);
            proof {
                lemma_splice_push(s0, p0, buf@.take(i as int), buf@[i as int]);
                assert(buf@.take(i + 1) =~= buf@.take(i as int).push(buf@[i as int]));
            }
            match out {
                Some(c) => {
                    r.push(c);
                    proof {
                        assert(views(r@) =~= views(before).push(r@.last()@));
                        assert(h0 + views(r@) =~= (h0 + views(before)).push(r@.last()@));
                        assert(self.sent() == sent0 + r@.len() * cap) by (nonlinear_arith)
                            requires
                                self.sent() == sent0 + before.len() * cap + cap,
                                r@.len() == before.len() + 1,
                        ;
                    }
                },
                None => {},
            }
            i = i + 1;
        }
        proof {
            assert(buf@.take(buf@.len() as int) =~= buf@);
            lemma_write_at_end_appends(s0, buf@);
            let x = self.stream().len() - sent0;
            assert(self.stream().len() == self.sent() + self.buffered().len());
            lemma_fundamental_div_mod_converse(
                x,
                cap as int,
                r@.len() as int,
                self.buffered().len() as int,
            );
        }
        r
    }

    /// Ends the archive: hands out what is buffered, possibly nothing, as the
    /// final chunk, which alone declares the total size: every byte written.
    pub fn finalize(&mut self) -> (r: Chunk)
        requires
            old(self).wf(),
            !old(self).is_finalized(),
        ensures
            final(self).wf(),
            final(self).is_finalized(),
            r@ == (ChunkView {
                start: old(self).sent(),
                payload: old(self).buffered(),
                is_final: true,
                total: Some(old(self).stream().len()),
            }),
            final(self).chunks() == old(self).chunks().push(r@),
            final(self).stream() == old(self).stream(),
            final(self).sent() == old(self).stream().len(),
            final(self).session().spec_total_size() == Some(old(self).stream().len()),
            final(self).session().spec_phase() is Finalizing,
            final(self).capacity() == old(self).capacity(),
            final(self).session().pending() == old(self).session().pending(),
            final(self).session().spec_server_url() == old(self).session().spec_server_url(),
            final(self).session().spec_zip_file_name() == old(self).session().spec_zip_file_name(),
    {
        self.emit(true)
    }

    /// Moves the current position to `target`. Only a position within the
    /// bytes still buffered, its end included, can be reached: bytes already
    /// handed out cannot be rewritten, and no gap can be left.
    pub fn seek(&mut self, target: SeekTarget) -> (r: Result<u64, SinkError>)
        requires
            old(self).wf(),
        ensures
            final(self).wf(),
            ({
                let t = seek_goal(target, old(self).pos(), old(self).stream().len());
                match r {
                    Ok(p) => old(self).sent() <= t <= old(self).stream().len() && p == t
                        && final(self).pos() == t && final(self).stream() == old(self).stream()
                        && final(self).chunks() == old(self).chunks() && final(self).session()
                        == old(self).session() && final(self).capacity() == old(self).capacity(),
                    Err(e) => !(old(self).sent() <= t <= old(self).stream().len()) && e
                        == SinkError::UnsupportedSeek && *final(self) == *old(self),
                }
            }),
    {
        let sent = self.uploader.bytes_uploaded();
        let len = self.intermediate_buffer.len();
        let lo: i128 = sent as i128;
        let goal: i128 = match target {
            SeekTarget::Start(n) => n as i128,
            SeekTarget::Current(d) => lo + self.position as i128 + d as i128,
            SeekTarget::End(d) => lo + len as i128 + d as i128,
        };
        if lo <= goal && goal <= lo + len as i128 {
            self.position = (goal - lo) as usize;
            Ok(goal as u64)
        } else {
            Err(SinkError::UnsupportedSeek)
        }
    }
}

impl<H> ChunkedStreamingUploader<H> {
    /// Records the handle of an upload that was dispatched for a chunk.
    pub fn track_upload(&mut self, handle: H)
        requires
            old(self).wf(),
        ensures
            final(self).wf(),
            final(self).session().pending() == old(self).session().pending().push(handle),
            final(self).session().spec_phase() == old(self).session().spec_phase(),
            final(self).session().spec_total_size() == old(self).session().spec_total_size(),
            final(self).sent() == old(self).sent(),
            final(self).stream() == old(self).stream(),
            final(self).chunks() == old(self).chunks(),
            final(self).pos() == old(self).pos(),
            final(self).capacity() == old(self).capacity(),
    {
        self.uploader.track_upload(handle);
    }

    /// Gives the session back once the archive is finalized, for its pending
    /// uploads to be awaited.
    pub fn into_uploader(self) -> (r: StreamingUploader<H>)
        requires
            self.wf(),
            self.is_finalized(),
        ensures
            r == self.session(),
            r.wf(),
            r.spec_phase() is Finalizing,
            r.spec_total_size() == Some(self.stream().len()),
    {
        self.uploader
    }

    /// Once the archive is finalized, the chunks handed out, one after
    /// another, are exactly the bytes written: no gap, no overlap.
    pub proof fn lemma_chunks_partition_stream(&self)
        requires
            self.wf(),
            self.is_finalized(),
        ensures
            concat_payloads(self.chunks()) == self.stream(),
    {
        assert(self.stream() =~= concat_payloads(self.chunks()));
    }

    /// The first chunk starts at offset zero, and each later one right after
    /// the last byte of the one before it.
    pub proof fn lemma_chunks_contiguous(&self, i: int)
        requires
            self.wf(),
            0 <= i < self.chunks().len(),
        ensures
            i == 0 ==> self.chunks()[i].start == 0,
            i > 0 ==> self.chunks()[i].start == self.chunks()[i - 1].end_offset() + 1,
    {
        let h = self.chunks();
        assert(h[i].start == concat_payloads(h.take(i)).len());
        if i == 0 {
            assert(h.take(i) =~= Seq::<ChunkView>::empty());
        } else {
            assert(h.take(i) =~= h.take(i - 1).push(h[i - 1]));
            lemma_concat_push(h.take(i - 1), h[i - 1]);
            assert(h[i - 1].start == concat_payloads(h.take(i - 1)).len());
        }
    }

    /// A finalized archive has exactly one final chunk, the last; it alone
    /// declares a total size, and that total is the number of bytes of all
    /// chunks together.
    pub proof fn lemma_one_final_chunk(&self)
        requires
            self.wf(),
            self.is_finalized(),
        ensures
            self.chunks().len() > 0,
            self.chunks().last().is_final,
            self.chunks().last().total == Some(concat_payloads(self.chunks()).len()),
            forall|i: int|
                0 <= i < self.chunks().len() - 1 ==> !(#[trigger] self.chunks()[i]).is_final
                    && self.chunks()[i].total is None,
    {
        let h = self.chunks();
        assert(h[h.len() - 1].is_final);
    }
}

/// The archive offset that a seek to `target` aims at, from position `pos` in
/// an archive of `len` bytes.
pub open spec fn seek_goal(target: SeekTarget, pos: nat, len: nat) -> int {
    match target {
        SeekTarget::Start(n) => n as int,
        SeekTarget::Current(d) => pos + d,
        SeekTarget::End(d) => len + d,
    }
}

} // verus!

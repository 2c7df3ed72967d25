use vstd::prelude::*;

use crate::range::{append_decimal, content_range, content_range_of, decimal};

verus! {

/// What a chunk is, mathematically: where it starts in the archive, the bytes
/// it carries, whether it ends the session, and the total size it declares.
pub ghost struct ChunkView {
    pub start: nat,
    pub payload: Seq<u8>,
    pub is_final: bool,
    pub total: Option<nat>,
}

/// One request's worth of archive bytes with its place in the archive.
pub struct Chunk {
    pub start_offset: u64,
    pub payload: Vec<u8>,
    pub is_final: bool,
    pub total_size: Option<u64>,
}

pub open spec fn opt_nat(o: Option<u64>) -> Option<nat> {
    match o {
        Some(t) => Some(t as nat),
        None => None,
    }
}

impl View for Chunk {
    type V = ChunkView;

    open spec fn view(&self) -> ChunkView {
        ChunkView {
            start: self.start_offset as nat,
            payload: self.payload@,
            is_final: self.is_final,
            total: opt_nat(self.total_size),
        }
    }
}

impl ChunkView {
    /// The offset of the last byte carried; one less than `start` for an
    /// empty chunk.
    pub open spec fn end_offset(self) -> int {
        self.start + self.payload.len() - 1
    }

    pub open spec fn content_range(self) -> Seq<char> {
        content_range_of(self.start, self.payload.len(), self.total)
    }
}

impl Chunk {
    /// The Content-Range header of the request that carries this chunk.
    pub fn content_range(&self) -> (r: String)
        requires
            self.start_offset + self.payload.len() <= u64::MAX,
        ensures
            r@ == self@.content_range(),
    {
        content_range(self.start_offset, self.payload.len() as u64, self.total_size)
    }

    /// The Content-Length header of the request that carries this chunk.
    pub fn content_length(&self) -> (r: String)
        ensures
            r@ == decimal(self.payload.len() as nat),
    {
        let mut r = String::new();
        append_decimal(&mut r, self.payload.len() as u64);
        assert(r@ =~= decimal(self.payload.len() as nat));
        r
    }
}

/// Where an upload session stands. No step goes back.
pub enum SessionPhase {
    /// Chunks are being produced.
    Open,
    /// The final chunk has been produced; the total size is fixed.
    Finalizing,
    /// The pending uploads were taken and are being awaited.
    Draining { awaiting: usize },
    /// Every awaited upload has resolved.
    Closed,
}

/// An upload session: the destination, the running byte offset, the total
/// size once known, and the uploads dispatched and not yet awaited.
pub struct StreamingUploader<H> {
    server_url: String,
    zip_file_name: String,
    total_bytes_uploaded: u64,
    total_size: Option<u64>,
    tasks: Vec<H>,
    phase: SessionPhase,
}

impl<H> StreamingUploader<H> {
    pub closed spec fn spec_server_url(&self) -> Seq<char> {
        self.server_url@
    }

    pub closed spec fn spec_zip_file_name(&self) -> Seq<char> {
        self.zip_file_name@
    }

    pub closed spec fn bytes_sent(&self) -> nat {
        self.total_bytes_uploaded as nat
    }

    pub closed spec fn spec_total_size(&self) -> Option<nat> {
        opt_nat(self.total_size)
    }

    pub closed spec fn pending(&self) -> Seq<H> {
        self.tasks@
    }

    pub closed spec fn spec_phase(&self) -> SessionPhase {
        self.phase
    }

    /// The total size is known exactly from the moment the final chunk is
    /// produced, and it is then the number of bytes sent.
    pub closed spec fn wf(&self) -> bool {
        &&& (self.phase is Open) == (self.total_size is None)
        &&& self.total_size is Some ==> self.total_size == Some(self.total_bytes_uploaded)
        &&& !(self.phase is Open || self.phase is Finalizing) ==> self.tasks@.len() == 0
    }

    pub fn new(server_url: &str, zip_file_name: &str) -> (r: Self)
        ensures
            r.wf(),
            r.spec_server_url() == server_url@,
            r.spec_zip_file_name() == zip_file_name@,
            r.bytes_sent() == 0,
            r.spec_total_size() is None,
            r.pending().len() == 0,
            r.spec_phase() is Open,
    {
        StreamingUploader {
            server_url: server_url.to_owned(),
            zip_file_name: zip_file_name.to_owned(),
            total_bytes_uploaded: 0,
            total_size: None,
            tasks: Vec::new(),
            phase: SessionPhase::Open,
        }
    }

    pub fn server_url(&self) -> (r: &str)
        ensures
            r@ == self.spec_server_url(),
    {
        self.server_url.as_str()
    }

    pub fn zip_file_name(&self) -> (r: &str)
        ensures
            r@ == self.spec_zip_file_name(),
    {
        self.zip_file_name.as_str()
    }

    pub fn bytes_uploaded(&self) -> (r: u64)
        ensures
            r == self.bytes_sent(),
    {
        self.total_bytes_uploaded
    }

    pub fn total_size(&self) -> (r: Option<u64>)
        ensures
            opt_nat(r) == self.spec_total_size(),
    {
        self.total_size
    }

    pub fn phase(&self) -> (r: &SessionPhase)
        ensures
            *r == self.spec_phase(),
    {
        &self.phase
    }

    /// Makes the chunk that carries `data` at the current offset, and advances
    /// the offset past it. The final chunk fixes the session's total size and
    /// is the only one to declare it.
    pub fn upload_chunk(&mut self, data: Vec<u8>, is_last_chunk: bool) -> (r: Chunk)
        requires
            old(self).wf(),
            old(self).spec_phase() is Open,
            old(self).bytes_sent() + data@.len() <= u64::MAX,
        ensures
            final(self).wf(),
            r@ == (ChunkView {
                start: old(self).bytes_sent(),
                payload: data@,
                is_final: is_last_chunk,
                total: if is_last_chunk {
                    Some(old(self).bytes_sent() + data@.len())
                } else {
                    None
                },
            }),
            final(self).bytes_sent() == old(self).bytes_sent() + data@.len(),
            final(self).spec_total_size() == r@.total,
            final(self).spec_phase() == (if is_last_chunk {
                SessionPhase::Finalizing
            } else {
                SessionPhase::Open
            }),
            final(self).pending() == old(self).pending(),
            final(self).spec_server_url() == old(self).spec_server_url(),
            final(self).spec_zip_file_name() == old(self).spec_zip_file_name(),
    {
        let start = self.total_bytes_uploaded;
        let end = start + data.len() as u64;
        let total = if is_last_chunk {
            Some(end)
        } else {
            None
        };
        self.total_bytes_uploaded = end;
        if is_last_chunk {
            self.total_size = total;
            self.phase = SessionPhase::Finalizing;
        }
        Chunk { start_offset: start, payload: data, is_final: is_last_chunk, total_size: total }
    }

    /// Records the handle of an upload that was dispatched.
    pub fn track_upload(&mut self, handle: H)
        requires
            old(self).wf(),
            old(self).spec_phase() is Open || old(self).spec_phase() is Finalizing,
        ensures
            final(self).wf(),
            final(self).pending() == old(self).pending().push(handle),
            final(self).bytes_sent() == old(self).bytes_sent(),
            final(self).spec_total_size() == old(self).spec_total_size(),
            final(self).spec_phase() == old(self).spec_phase(),
            final(self).spec_server_url() == old(self).spec_server_url(),
            final(self).spec_zip_file_name() == old(self).spec_zip_file_name(),
    {
        self.tasks.push(handle);
    }

    /// Takes every pending upload at once, leaving none, for the caller to
    /// await. The session then waits for that many to resolve.
    pub fn wait_for_all_uploads(&mut self) -> (r: Vec<H>)
        requires
            old(self).wf(),
            old(self).spec_phase() is Finalizing,
        ensures
            final(self).wf(),
            r@ == old(self).pending(),
            final(self).pending().len() == 0,
            final(self).spec_phase() == (SessionPhase::Draining { awaiting: r@.len() as usize }),
            final(self).bytes_sent() == old(self).bytes_sent(),
            final(self).spec_total_size() == old(self).spec_total_size(),
    {
        let mut taken: Vec<H> = Vec::new();
        std::mem::swap(&mut taken, &mut self.tasks);
        self.phase = SessionPhase::Draining { awaiting: taken.len() };
        taken
    }

    /// Reports that `resolved` of the awaited uploads have resolved, whether
    /// they succeeded or failed. The session closes exactly when that is all
    /// of them.
    pub fn complete_uploads(&mut self, resolved: usize) -> (closed: bool)
        requires
            old(self).wf(),
            old(self).spec_phase() is Draining,
        ensures
            final(self).wf(),
            closed == (resolved == old(self).spec_phase()->awaiting),
            final(self).spec_phase() == (if closed {
                SessionPhase::Closed
            } else {
                old(self).spec_phase()
            }),
            final(self).bytes_sent() == old(self).bytes_sent(),
            final(self).spec_total_size() == old(self).spec_total_size(),
            final(self).pending() == old(self).pending(),
    {
        let awaiting = match self.phase {
            SessionPhase::Draining { awaiting } => awaiting,
            _ => 0,
        };
        if resolved == awaiting {
            self.phase = SessionPhase::Closed;
            true
        } else {
            false
        }
    }
}

} // verus!

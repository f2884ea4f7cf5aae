use crate::compress::{zstd_encode, zstd_frame};
use crate::digest::{payload_hash, Sha3Sink};
use crate::multi_writer::{BufferSink, MultiWriter, Sink};
use crate::usage::{UsageError, STORAGE_LEVEL};
use vstd::prelude::*;

verus! {

/// What measuring one payload gives: its hash text and its stored size.
pub struct Measured {
    pub hash: String,
    pub size: usize,
}

/// Puts a hash text and the compressor's outcome together: a measurement
/// where there is a frame, `Compression` where there is none.
pub fn measured(hash: String, frame: Option<Vec<u8>>) -> (outcome: Result<Measured, UsageError>)
    ensures
        match frame {
            Some(bytes) => outcome matches Ok(m) && m.hash@ == hash@ && m.size == bytes@.len(),
            None => outcome matches Err(e) && e == UsageError::Compression,
        },
{
    match frame {
        Some(bytes) => Ok(Measured { hash, size: bytes.len() }),
        None => Err(UsageError::Compression),
    }
}

/// Measures one payload as it streams by: every chunk goes to the hash and
/// to the bytes kept for the compressor in one call.
pub struct PayloadMeter {
    tee: MultiWriter<Sha3Sink, BufferSink>,
}

impl PayloadMeter {
    /// Both halves have seen the same bytes, and neither can fail.
    pub closed spec fn wf(&self) -> bool {
        &&& self.tee.one.received() == self.tee.two.received()
        &&& self.tee.two.steady()
    }

    /// The payload bytes fed so far.
    pub closed spec fn fed(&self) -> Seq<u8> {
        self.tee.two.received()
    }

    /// A meter that has seen nothing.
    pub fn new() -> (meter: Self)
        ensures
            meter.wf(),
            meter.fed() == Seq::<u8>::empty(),
    {
        PayloadMeter { tee: MultiWriter::new(Sha3Sink::new(), BufferSink::new()) }
    }

    /// Takes the next chunk of the payload.
    pub fn feed(&mut self, chunk: &[u8])
        requires
            old(self).wf(),
        ensures
            final(self).wf(),
            final(self).fed() == old(self).fed() + chunk@,
    {
        let _ = self.tee.write(chunk);
    }

    /// Ends the payload: its hash text and the length of its zstd frame at
    /// `STORAGE_LEVEL`. Fails with `Compression` where the compressor does.
    pub fn finish(self) -> (outcome: Result<Measured, UsageError>)
        requires
            self.wf(),
        ensures
            match outcome {
                Ok(m) => {
                    &&& m.hash@ == payload_hash(self.fed())
                    &&& m.size == zstd_frame(self.fed(), STORAGE_LEVEL as int).len()
                },
                Err(e) => e == UsageError::Compression,
            },
    {
        let (mut hasher, buffer) = self.tee.into_parts();
        let hash = hasher.finish();
        let frame = zstd_encode(buffer.bytes(), STORAGE_LEVEL);
        measured(hash, frame)
    }
}

} // verus!

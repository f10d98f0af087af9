//! The run's in-memory log sink.
//!
//! Every diagnostic line of a run is appended here, and the whole buffer is
//! read exactly once at the end, when it becomes the archive's log entry.
//! The caller that shares the buffer between a logging facility and the
//! archive writer guards it with its own lock; the buffer itself is a plain
//! growable byte sequence.

use vstd::prelude::*;

verus! {

/// The bytes that one log line contributes to the buffer: the line's UTF-8
/// encoding followed by a newline byte.
pub open spec fn line_bytes(line: Seq<char>) -> Seq<u8> {
    vstd::utf8::encode_utf8(line) + seq![10u8]
}

fn push_bytes(out: &mut Vec<u8>, data: &[u8])
    ensures
        final(out)@ == old(out)@ + data@,
{
    let n = data.len();
    let mut i: usize = 0;
    while i < n
        invariant
            n == data@.len(),
            0 <= i <= n,
            out@ == old(out)@ + data@.take(i as int),
        decreases n - i,
    {
        out.push(data[i]);
        proof {
            assert(old(out)@ + data@.take(i + 1) =~= (old(out)@ + data@.take(i as int)).push(
                data@[i as int],
            ));
        }
        i = i + 1;
    }
    proof {
        assert(data@.take(n as int) == data@);
    }
}

/// An append-only byte buffer that collects the run's log lines.
pub struct LogBuffer {
    bytes: Vec<u8>,
}

impl View for LogBuffer {
    type V = Seq<u8>;

    closed spec fn view(&self) -> Seq<u8> {
        self.bytes@
    }
}

impl LogBuffer {
    /// An empty buffer.
    pub fn new() -> (r: LogBuffer)
        ensures
            r@ == Seq::<u8>::empty(),
    {
        LogBuffer { bytes: Vec::new() }
    }

    /// Appends one log line: its UTF-8 bytes and a trailing newline.
    pub fn append_line(&mut self, line: &str)
        ensures
            final(self)@ == old(self)@ + line_bytes(line@),
    {
        push_bytes(&mut self.bytes, line.as_bytes());
        self.bytes.push(10u8);
        proof {
            assert(self@ =~= old(self)@ + line_bytes(line@));
        }
    }

    /// The collected bytes, read at archive-close time.
    pub fn as_bytes(&self) -> (r: &Vec<u8>)
        ensures
            r@ == self@,
    {
        &self.bytes
    }
}

} // verus!

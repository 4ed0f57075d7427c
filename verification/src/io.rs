//! The shell's output.

use vstd::prelude::*;
use vstd::utf8::*;


verus! {

/// Carriage return and line feed.
pub open spec fn crlf() -> Seq<u8> {
    seq![13u8, 10u8]
}

/// Output handle: collects what is to be written to the terminal until it is
/// flushed to the transport.
pub struct Io {
    out: Vec<u8>,
}

/// The bytes written since the last flush.
impl View for Io {
    type V = Seq<u8>;

    closed spec fn view(&self) -> Seq<u8> {
        self.out@
    }
}

impl Io {
    /// An output handle with nothing written to it.
    pub fn new() -> (io: Io)
        ensures
            io@ == Seq::<u8>::empty(),
    {
        Io { out: Vec::new() }
    }

    /// Write a string slice.
    pub fn print(&mut self, s: &str)
        ensures
            final(self)@ == old(self)@ + encode_utf8(s@),
    {
        self.write_all(s.as_bytes());
    }

    /// Write a string slice followed by `\r\n`.
    pub fn println(&mut self, s: &str)
        ensures
            final(self)@ == old(self)@ + encode_utf8(s@) + crlf(),
    {
        self.write_all(s.as_bytes());
        self.out.push(13);
        self.out.push(10);
        assert(self@ =~= old(self)@ + encode_utf8(s@) + crlf());
    }

    /// Write a byte slice.
    pub fn write_all(&mut self, buf: &[u8])
        ensures
            final(self)@ == old(self)@ + buf@,
    {
        self.out.extend_from_slice(buf);
        assert(self@ =~= old(self)@ + buf@);
    }

    /// Hand over the bytes written since the last flush.
    pub fn flush(&mut self) -> (bytes: Vec<u8>)
        ensures
            bytes@ == old(self)@,
            final(self)@ == Seq::<u8>::empty(),
    {
        let mut bytes: Vec<u8> = Vec::new();
        core::mem::swap(&mut bytes, &mut self.out);
        bytes
    }
}

} // verus!

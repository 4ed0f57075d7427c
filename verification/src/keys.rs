//! Decoding key presses.

use vstd::prelude::*;
use vstd::std_specs::iter::*;
use vstd::utf8::*;

use crate::error::ErrorKind;
use crate::text;

verus! {

/// A decoded key press received from the terminal.
#[derive(Debug, Clone, Copy, PartialEq, Eq, Structural)]
pub enum Key {
    /// A printable character.
    Char(char),
    /// Enter (CR or LF).
    Enter,
    /// Backspace / DEL.
    Backspace,
    /// Forward delete (`ESC [ 3 ~`).
    Delete,
    /// Tab: triggers completion.
    Tab,
    /// Cursor up.
    Up,
    /// Cursor down.
    Down,
    /// Cursor left.
    Left,
    /// Cursor right.
    Right,
    /// Start of the line.
    Home,
    /// End of the line.
    End,
    /// Ctrl-C: interrupt.
    CtrlC,
    /// Ctrl-U: kill line.
    CtrlU,
    /// Ctrl-W: delete previous word.
    CtrlW,
    /// Ctrl-L: clear screen.
    CtrlL,
}

/// What came of reading one byte from the transport.
#[derive(Debug, Clone, Copy, PartialEq, Eq, Structural)]
pub enum Input {
    /// A byte.
    Byte(u8),
    /// The end of the input.
    Eof,
    /// The transport failed.
    Failed(ErrorKind),
}

impl Input {
    /// What it means that the transport returned `read` when it was asked for the
    /// one byte `b`.
    pub open spec fn spec_of_read(read: Result<usize, ErrorKind>, b: u8) -> Input {
        match read {
            Ok(n) => if n == 1 {
                Input::Byte(b)
            } else {
                Input::Eof
            },
            Err(kind) => Input::Failed(kind),
        }
    }

    /// What came of a read: `read` is what the transport returned for a buffer of
    /// one byte, and `b` is what the buffer holds.
    pub fn of_read(read: Result<usize, ErrorKind>, b: u8) -> (input: Input)
        ensures
            input == Self::spec_of_read(read, b),
    {
        match read {
            Ok(1) => Input::Byte(b),
            // Nothing read into a non-empty buffer means the end of the input.
            Ok(_) => Input::Eof,
            Err(kind) => Input::Failed(kind),
        }
    }

    /// The byte that was kept while a command was running, if there is one: it
    /// comes before anything else that is read.
    pub fn take_pending(pending: &mut Option<u8>) -> (input: Option<Input>)
        ensures
            *final(pending) == None::<u8>,
            input == match *old(pending) {
                Some(b) => Some(Input::Byte(b)),
                None => None,
            },
    {
        match pending.take() {
            Some(b) => Some(Input::Byte(b)),
            None => None,
        }
    }
}

/// How bytes above ASCII are read.
#[derive(Debug, Clone, Copy, PartialEq, Eq, Structural)]
pub enum Encoding {
    /// As UTF-8 sequences.
    Utf8,
    /// Each byte as one character.
    Latin1,
}

/// What the bytes read so far amount to.
#[derive(Debug, Clone, Copy, PartialEq, Eq, Structural)]
pub enum Decoded {
    /// The beginning of a key: more bytes are needed.
    More,
    /// A complete key.
    Key(Key),
    /// A complete sequence that means nothing to the shell.
    Ignored,
}

/// What the escape sequence `bytes` (of which `ESC` is the first byte) amounts to.
pub open spec fn decode_escape(bytes: Seq<u8>) -> Decoded {
    if bytes.len() == 1 {
        Decoded::More
    } else if bytes[1] != 0x5b {
        Decoded::Ignored
    } else if bytes.len() == 2 {
        Decoded::More
    } else if bytes[2] == 0x41 {
        Decoded::Key(Key::Up)
    } else if bytes[2] == 0x42 {
        Decoded::Key(Key::Down)
    } else if bytes[2] == 0x43 {
        Decoded::Key(Key::Right)
    } else if bytes[2] == 0x44 {
        Decoded::Key(Key::Left)
    } else if bytes[2] == 0x48 {
        Decoded::Key(Key::Home)
    } else if bytes[2] == 0x46 {
        Decoded::Key(Key::End)
    } else if bytes[2] != 0x33 {
        Decoded::Ignored
    } else if bytes.len() == 3 {
        Decoded::More
    } else if bytes[3] == 0x7e {
        Decoded::Key(Key::Delete)
    } else {
        Decoded::Ignored
    }
}

/// What `bytes` amount to when their first byte announces a UTF-8 sequence of
/// `width` bytes.
pub open spec fn decode_utf8_key(bytes: Seq<u8>, width: nat) -> Decoded {
    if bytes.len() < width {
        Decoded::More
    } else if valid_utf8(bytes) {
        Decoded::Key(Key::Char(decode_utf8(bytes)[0]))
    } else {
        Decoded::Ignored
    }
}

/// What the bytes of one key press amount to. `bytes` is not empty, and no
/// shorter prefix of it is complete.
pub open spec fn decode(bytes: Seq<u8>, encoding: Encoding) -> Decoded {
    let b = bytes[0];
    if b == 0x0d || b == 0x0a {
        Decoded::Key(Key::Enter)
    } else if b == 0x08 || b == 0x7f {
        Decoded::Key(Key::Backspace)
    } else if b == 0x09 {
        Decoded::Key(Key::Tab)
    } else if b == 0x03 {
        Decoded::Key(Key::CtrlC)
    } else if b == 0x15 {
        Decoded::Key(Key::CtrlU)
    } else if b == 0x17 {
        Decoded::Key(Key::CtrlW)
    } else if b == 0x0c {
        Decoded::Key(Key::CtrlL)
    } else if b == 0x1b {
        decode_escape(bytes)
    } else if 0x20 <= b <= 0x7e {
        Decoded::Key(Key::Char(b as char))
    } else if b < 0x80 {
        Decoded::Ignored
    } else if encoding == Encoding::Latin1 {
        Decoded::Key(Key::Char(b as char))
    } else if 0xc2 <= b <= 0xdf {
        decode_utf8_key(bytes, 2)
    } else if 0xe0 <= b <= 0xef {
        decode_utf8_key(bytes, 3)
    } else if 0xf0 <= b <= 0xf7 {
        decode_utf8_key(bytes, 4)
    } else {
        Decoded::Ignored
    }
}

/// Decode the escape sequence `bytes`.
fn classify_escape(bytes: &[u8]) -> (d: Decoded)
    requires
        bytes@.len() > 0,
    ensures
        d == decode_escape(bytes@),
{
    if bytes.len() == 1 {
        return Decoded::More;
    }
    if bytes[1] != 0x5b {
        return Decoded::Ignored;
    }
    if bytes.len() == 2 {
        return Decoded::More;
    }
    match bytes[2] {
        0x41 => Decoded::Key(Key::Up),
        0x42 => Decoded::Key(Key::Down),
        0x43 => Decoded::Key(Key::Right),
        0x44 => Decoded::Key(Key::Left),
        0x48 => Decoded::Key(Key::Home),
        0x46 => Decoded::Key(Key::End),
        0x33 => {
            // `ESC [ 3 ~` is delete; other `ESC [ 3 <x>` are ignored.
            if bytes.len() == 3 {
                Decoded::More
            } else if bytes[3] == 0x7e {
                Decoded::Key(Key::Delete)
            } else {
                Decoded::Ignored
            }
        },
        _ => Decoded::Ignored,
    }
}

/// Decode a character of which `bytes` are the first bytes, of `width` in all.
fn classify_utf8(bytes: &[u8], width: usize) -> (d: Decoded)
    requires
        0 < width,
    ensures
        d == decode_utf8_key(bytes@, width as nat),
{
    if bytes.len() < width {
        return Decoded::More;
    }
    match core::str::from_utf8(bytes) {
        Ok(s) => {
            proof {
                encode_utf8_decode_utf8(s@);
                text::lemma_encode_len(s@);
            }
            let mut chars = s.chars();
            match chars.next() {
                Some(c) => Decoded::Key(Key::Char(c)),
                None => Decoded::Ignored,
            }
        },
        Err(_) => Decoded::Ignored,
    }
}

/// Decode the bytes of one key press.
pub fn classify(bytes: &[u8], encoding: Encoding) -> (d: Decoded)
    requires
        bytes@.len() > 0,
    ensures
        d == decode(bytes@, encoding),
{
    let b = bytes[0];
    match b {
        0x0d | 0x0a => Decoded::Key(Key::Enter),
        0x08 | 0x7f => Decoded::Key(Key::Backspace),
        0x09 => Decoded::Key(Key::Tab),
        0x03 => Decoded::Key(Key::CtrlC),
        0x15 => Decoded::Key(Key::CtrlU),
        0x17 => Decoded::Key(Key::CtrlW),
        0x0c => Decoded::Key(Key::CtrlL),
        0x1b => classify_escape(bytes),
        0x20..=0x7e => Decoded::Key(Key::Char(b as char)),
        0x80..=0xff => match encoding {
            Encoding::Latin1 => Decoded::Key(Key::Char(b as char)),
            Encoding::Utf8 => match b {
                0xc2..=0xdf => classify_utf8(bytes, 2),
                0xe0..=0xef => classify_utf8(bytes, 3),
                0xf0..=0xf7 => classify_utf8(bytes, 4),
                _ => Decoded::Ignored,
            },
        },
        // Unmapped control character.
        _ => Decoded::Ignored,
    }
}

/// Decodes key presses from the bytes of the terminal: UTF-8 and common ANSI/VT
/// escape sequences (xterm-compatible cursor keys).
pub struct KeyDecoder {
    encoding: Encoding,
    buf: [u8; 4],
    len: usize,
}

/// The bytes of the key press that is being read.
impl View for KeyDecoder {
    type V = Seq<u8>;

    closed spec fn view(&self) -> Seq<u8> {
        self.buf@.take(self.len as int)
    }
}

impl KeyDecoder {
    /// How bytes above ASCII are read.
    pub closed spec fn spec_encoding(&self) -> Encoding {
        self.encoding
    }

    /// What has been read is the beginning of a key press.
    pub closed spec fn wf(&self) -> bool {
        &&& self.len <= 3
        &&& self.len > 0 ==> decode(self@, self.encoding) == Decoded::More
    }

    /// At most three bytes are held back.
    pub proof fn lemma_bounded(&self)
        requires
            self.wf(),
        ensures
            self@.len() <= 3,
            self@.len() > 0 ==> decode(self@, self.spec_encoding()) == Decoded::More,
    {
    }

    /// A decoder that has read nothing yet.
    pub fn new(encoding: Encoding) -> (d: KeyDecoder)
        ensures
            d.wf(),
            d@ == Seq::<u8>::empty(),
            d.spec_encoding() == encoding,
    {
        KeyDecoder { encoding, buf: [0; 4], len: 0 }
    }

    /// Read one more byte.
    pub fn feed(&mut self, b: u8) -> (d: Decoded)
        requires
            old(self).wf(),
        ensures
            final(self).wf(),
            final(self).spec_encoding() == old(self).spec_encoding(),
            d == decode(old(self)@.push(b), old(self).spec_encoding()),
            final(self)@ == (if d == Decoded::More {
                old(self)@.push(b)
            } else {
                Seq::empty()
            }),
    {
        self.buf[self.len] = b;
        self.len += 1;
        assert(self@ =~= old(self)@.push(b));
        let d = classify(
            vstd::slice::slice_subrange(self.buf.as_slice(), 0, self.len),
            self.encoding,
        );
        match d {
            Decoded::More => {},
            _ => {
                self.len = 0;
            },
        }
        d
    }
}

} // verus!

//! Reading keys.

use vstd::prelude::*;
use vstd::utf8::*;

use crate::keys;
use crate::keys::{Decoded, Encoding, Input, Key};
use crate::line::LineView;
use crate::shell;
use crate::shell::{Next, SessionView, ShellView};
use crate::text;

verus! {

/// A character that is typed as itself: no control character.
pub open spec fn is_typable(c: char) -> bool {
    c as u32 >= 0x20 && c as u32 != 0x7f
}

/// Every typable character can be typed in UTF-8: its bytes are one key press,
/// and no sooner complete than with the last of them.
pub proof fn law_utf8_character_is_one_key(c: char)
    requires
        is_typable(c),
    ensures
        keys::decode(encode_scalar(c as u32), Encoding::Utf8) == Decoded::Key(Key::Char(c)),
        forall|n: int|
            0 < n < encode_scalar(c as u32).len() ==> keys::decode(
                #[trigger] encode_scalar(c as u32).take(n),
                Encoding::Utf8,
            ) == Decoded::More,
{
    let bytes = encode_scalar(c as u32);
    text::lemma_encode_one(c);
    encode_utf8_first_scalar(seq![c]);
    encode_utf8_valid_utf8(seq![c]);
    encode_utf8_decode_utf8(seq![c]);
    let b1 = bytes[0];
    if bytes.len() == 1 {
        assert(b1 < 0x80 ==> (b1 & 0x7f) as u32 == b1) by (bit_vector);
    } else if bytes.len() == 2 {
        let b2 = bytes[1];
        assert(0xc0 <= b1 <= 0xdf && (((b1 & 0x1f) as u32) << 6u32) | ((b2 & 0x3f) as u32) >= 0x80
            ==> 0xc2 <= b1) by (bit_vector);
    }
    assert forall|n: int| 0 < n < bytes.len() implies keys::decode(
        #[trigger] bytes.take(n),
        Encoding::Utf8,
    ) == Decoded::More by {
        assert(bytes.take(n)[0] == b1);
    }
}

/// Whether a session `s` that reads this byte can turn into `t`, and its output
/// `out` into `out2`, with nothing to submit.
#[verifier::opaque]
pub open spec fn reads_byte<H, C: Fn(usize, &str) -> Vec<String>>(
    shell: ShellView<H, C>,
    s: SessionView,
    out: Seq<u8>,
    b: u8,
    t: SessionView,
    out2: Seq<u8>,
) -> bool {
    shell::input_effect(shell, s, out, Input::Byte(b), t, out2, Next::Read)
}

/// Whether a session `s` that reads these bytes, with nothing to submit on the
/// way, can turn into `t`, and its output `out` into `out2`.
pub open spec fn reads<H, C: Fn(usize, &str) -> Vec<String>>(
    shell: ShellView<H, C>,
    s: SessionView,
    out: Seq<u8>,
    bytes: Seq<u8>,
    t: SessionView,
    out2: Seq<u8>,
) -> bool
    decreases bytes.len(),
{
    if bytes.len() == 0 {
        t == s && out2 == out
    } else {
        exists|u: SessionView, mid: Seq<u8>|
            #![trigger reads_byte(shell, u, mid, bytes.last(), t, out2)]
            reads(shell, s, out, bytes.drop_last(), u, mid) && reads_byte(
                shell,
                u,
                mid,
                bytes.last(),
                t,
                out2,
            )
    }
}

/// Text that arrives as UTF-8 at the end of a line with room for it is appended to
/// the line and echoed as it is.
pub proof fn law_utf8_input_is_typed<H, C: Fn(usize, &str) -> Vec<String>>(
    shell: ShellView<H, C>,
    s: SessionView,
    out: Seq<u8>,
    chars: Seq<char>,
    t: SessionView,
    out2: Seq<u8>,
)
    requires
        s.keys.len() == 0,
        s.encoding == Encoding::Utf8,
        s.line.after.len() == 0,
        forall|i: int| 0 <= i < chars.len() ==> is_typable(#[trigger] chars[i]),
        encode_utf8(s.line.text() + chars).len() <= shell.max_line_len,
        reads(shell, s, out, encode_utf8(chars), t, out2),
    ensures
        t == (SessionView { line: LineView::at_end(s.line.text() + chars), ..s }),
        out2 == out + encode_utf8(chars),
    decreases chars.len(), 5nat,
{
    if chars.len() == 0 {
        assert(encode_utf8(chars) =~= Seq::empty());
        assert(s.line.text() + chars =~= s.line.before);
        assert(s.line.after =~= Seq::empty());
        assert(t =~= (SessionView { line: LineView::at_end(s.line.text() + chars), ..s }));
        assert(out2 =~= out + encode_utf8(chars));
    } else {
        let init = chars.drop_last();
        let bytes = encode_scalar(chars.last() as u32);
        assert(init.push(chars.last()) =~= chars);
        text::lemma_encode_push(init, chars.last());
        assert(bytes.take(bytes.len() as int) =~= bytes);
        lemma_utf8_input(shell, s, out, chars, bytes.len(), t, out2);
    }
}

/// What the byte number `n` of a character does when the ones before it have been
/// read.
proof fn lemma_utf8_byte<H, C: Fn(usize, &str) -> Vec<String>>(
    shell: ShellView<H, C>,
    s: SessionView,
    out: Seq<u8>,
    c: char,
    n: nat,
    t: SessionView,
    out2: Seq<u8>,
)
    requires
        is_typable(c),
        0 < n <= encode_scalar(c as u32).len(),
        s.keys == encode_scalar(c as u32).take(n - 1),
        s.encoding == Encoding::Utf8,
        s.line.after.len() == 0,
        s.line.byte_len() + encode_scalar(c as u32).len() <= shell.max_line_len,
        reads_byte(shell, s, out, encode_scalar(c as u32)[n - 1], t, out2),
    ensures
        n < encode_scalar(c as u32).len() ==> t == (SessionView {
            keys: encode_scalar(c as u32).take(n as int),
            ..s
        }) && out2 == out,
        n == encode_scalar(c as u32).len() ==> t == (SessionView {
            line: s.line.insert(c),
            keys: Seq::empty(),
            ..s
        }) && out2 == out + encode_scalar(c as u32),
{
    reveal(reads_byte);
    let bytes = encode_scalar(c as u32);
    assert(s.keys.push(bytes[n - 1]) =~= bytes.take(n as int));
    law_utf8_character_is_one_key(c);
    if n == bytes.len() {
        assert(bytes.take(n as int) =~= bytes);
    }
}

/// The same for a text of which the first `n` bytes of the last character have
/// arrived.
proof fn lemma_utf8_input<H, C: Fn(usize, &str) -> Vec<String>>(
    shell: ShellView<H, C>,
    s: SessionView,
    out: Seq<u8>,
    chars: Seq<char>,
    n: nat,
    t: SessionView,
    out2: Seq<u8>,
)
    requires
        s.keys.len() == 0,
        s.encoding == Encoding::Utf8,
        s.line.after.len() == 0,
        chars.len() > 0,
        forall|i: int| 0 <= i < chars.len() ==> is_typable(#[trigger] chars[i]),
        encode_utf8(s.line.text() + chars).len() <= shell.max_line_len,
        n <= encode_scalar(chars.last() as u32).len(),
        reads(
            shell,
            s,
            out,
            encode_utf8(chars.drop_last()) + encode_scalar(chars.last() as u32).take(n as int),
            t,
            out2,
        ),
    ensures
        n < encode_scalar(chars.last() as u32).len() ==> t == (SessionView {
            line: LineView::at_end(s.line.text() + chars.drop_last()),
            keys: encode_scalar(chars.last() as u32).take(n as int),
            ..s
        }) && out2 == out + encode_utf8(chars.drop_last()),
        n == encode_scalar(chars.last() as u32).len() ==> t == (SessionView {
            line: LineView::at_end(s.line.text() + chars),
            ..s
        }) && out2 == out + encode_utf8(chars),
    decreases chars.len(), n,
{
    let init = chars.drop_last();
    let c = chars.last();
    let bytes = encode_scalar(c as u32);
    let text = s.line.text();
    let all = encode_utf8(init) + bytes.take(n as int);
    assert(is_typable(chars[chars.len() - 1]));
    assert(init.push(c) =~= chars);
    assert(text + chars =~= (text + init).push(c));
    text::lemma_encode_push(init, c);
    text::lemma_encode_push(text + init, c);
    text::lemma_encode_one(c);
    assert(LineView::at_end(text + init).text() =~= text + init);
    if n == 0 {
        assert(all =~= encode_utf8(init));
        assert forall|i: int| 0 <= i < init.len() implies is_typable(#[trigger] init[i]) by {
            assert(init[i] == chars[i]);
        }
        law_utf8_input_is_typed(shell, s, out, init, t, out2);
        assert(t =~= (SessionView {
            line: LineView::at_end(text + init),
            keys: bytes.take(0),
            ..s
        }));
    } else {
        let m = (n - 1) as nat;
        assert(all.drop_last() =~= encode_utf8(init) + bytes.take(m as int));
        assert(all.last() == bytes[m as int]);
        let (u, mid) = choose|u: SessionView, mid: Seq<u8>|
            #![trigger reads_byte(shell, u, mid, all.last(), t, out2)]
            reads(shell, s, out, all.drop_last(), u, mid) && reads_byte(
                shell,
                u,
                mid,
                all.last(),
                t,
                out2,
            );
        lemma_utf8_input(shell, s, out, chars, m, u, mid);
        lemma_utf8_byte(shell, u, mid, c, n, t, out2);
        if n == bytes.len() {
            assert(t.line =~= LineView::at_end(text + chars));
            assert(t.keys =~= s.keys);
            assert(out2 =~= out + encode_utf8(chars));
        }
    }
}

/// In Latin-1 every byte above ASCII is the character of the same number.
pub proof fn law_latin1_byte_is_one_key(b: u8)
    requires
        b >= 0x80,
    ensures
        keys::decode(seq![b], Encoding::Latin1) == Decoded::Key(Key::Char(b as char)),
{
}

/// No key press is longer than four bytes.
pub proof fn law_key_press_is_short(bytes: Seq<u8>, encoding: Encoding)
    requires
        bytes.len() >= 4,
    ensures
        keys::decode(bytes, encoding) != Decoded::More,
{
}

/// Whether a carriage return, a line feed or both end a line, a line is entered
/// once: what the second of the two finds is blank, and only prints the prompt.
pub proof fn law_line_ends_are_equal<H, C>(shell: ShellView<H, C>, s: SessionView)
    requires
        s.keys.len() == 0,
    ensures
        keys::decode(s.keys.push(0x0d), s.encoding) == Decoded::Key(Key::Enter),
        keys::decode(s.keys.push(0x0a), s.encoding) == Decoded::Key(Key::Enter),
        shell::key_effect(
            shell::remembered(shell, s.line.text()),
            shell::submitted(shell, s),
            Key::Enter,
        ) == (
            shell::submitted(shell, s),
            encode_utf8("\r\n"@) + encode_utf8(shell.prompt),
            Next::Read,
        ),
{
    let t = shell::submitted(shell, s);
    assert(t.line.text().len() == 0);
    assert(shell::key_effect(shell::remembered(shell, s.line.text()), t, Key::Enter).0 =~= t);
}

/// What every ASCII byte but the escape does, however the others are read.
pub proof fn law_ascii_bytes(b: u8, encoding: Encoding)
    requires
        b < 0x80,
        b != 0x1b,
    ensures
        ({
            let d = keys::decode(seq![b], encoding);
            &&& d == Decoded::Key(Key::Enter) <==> b == 13 || b == 10
            &&& d == Decoded::Key(Key::Backspace) <==> b == 8 || b == 127
            &&& d == Decoded::Key(Key::Tab) <==> b == 9
            &&& d == Decoded::Key(Key::CtrlC) <==> b == 3
            &&& d == Decoded::Key(Key::CtrlU) <==> b == 21
            &&& d == Decoded::Key(Key::CtrlW) <==> b == 23
            &&& d == Decoded::Key(Key::CtrlL) <==> b == 12
            &&& 32 <= b < 127 ==> d == Decoded::Key(Key::Char(b as char))
            &&& b < 32 && b != 13 && b != 10 && b != 8 && b != 9 && b != 3 && b != 21 && b != 23
                && b != 12 ==> d == Decoded::Ignored
        }),
{
}

/// What an escape sequence does: `ESC [` with a letter is a cursor key, `ESC [ 3 ~`
/// is Delete, and anything else is ignored as soon as it cannot become one of
/// these.
pub proof fn law_escape_sequences(b: u8, encoding: Encoding)
    ensures
        keys::decode(seq![0x1bu8], encoding) == Decoded::More,
        keys::decode(seq![0x1bu8, b], encoding) == if b == 0x5b {
            Decoded::More
        } else {
            Decoded::Ignored
        },
        ({
            let d = keys::decode(seq![0x1bu8, 0x5bu8, b], encoding);
            &&& d == Decoded::Key(Key::Up) <==> b == 65
            &&& d == Decoded::Key(Key::Down) <==> b == 66
            &&& d == Decoded::Key(Key::Right) <==> b == 67
            &&& d == Decoded::Key(Key::Left) <==> b == 68
            &&& d == Decoded::Key(Key::Home) <==> b == 72
            &&& d == Decoded::Key(Key::End) <==> b == 70
            &&& d == Decoded::More <==> b == 51
            &&& b != 51 && !(65 <= b <= 68) && b != 72 && b != 70 ==> d == Decoded::Ignored
        }),
        keys::decode(seq![0x1bu8, 0x5bu8, 51u8, b], encoding) == if b == 126 {
            Decoded::Key(Key::Delete)
        } else {
            Decoded::Ignored
        },
{
}

/// Bytes above ASCII that make up a key in UTF-8 are the encoding of the character
/// that they are taken for: nothing else is taken for a character.
pub proof fn law_utf8_key_is_encoding(bytes: Seq<u8>, c: char)
    requires
        0 < bytes.len() <= 4,
        bytes[0] >= 0x80,
        forall|n: int|
            0 < n < bytes.len() ==> keys::decode(#[trigger] bytes.take(n), Encoding::Utf8)
                == Decoded::More,
        keys::decode(bytes, Encoding::Utf8) == Decoded::Key(Key::Char(c)),
    ensures
        bytes == encode_scalar(c as u32),
{
    let d = decode_utf8(bytes);
    decode_utf8_encode_utf8(bytes);
    assert(valid_utf8(bytes));
    assert(d[0] == c);
    // Nothing is left behind the first character: its lead byte announces as many
    // bytes as there are.
    let n = length_of_first_scalar(bytes);
    assert(valid_first_scalar(bytes));
    assert(2 <= n <= bytes.len());
    if n < bytes.len() {
        assert(bytes.take(n)[0] == bytes[0]);
        assert(keys::decode(bytes.take(n), Encoding::Utf8) == Decoded::More);
    }
    assert(pop_first_scalar(bytes) =~= Seq::empty());
    reveal_with_fuel(decode_utf8, 2);
    assert(d =~= seq![c]);
    text::lemma_encode_one(c);
}

/// How many bytes the first byte of a UTF-8 sequence announces, and that bytes
/// which are no such beginning are ignored at once.
pub proof fn law_utf8_widths(bytes: Seq<u8>)
    requires
        0 < bytes.len() <= 4,
        bytes[0] >= 0x80,
    ensures
        keys::decode(bytes, Encoding::Utf8) == Decoded::More <==> bytes.len() < if 0xc2 <= bytes[0]
            <= 0xdf {
            2nat
        } else if 0xe0 <= bytes[0] <= 0xef {
            3
        } else if 0xf0 <= bytes[0] <= 0xf7 {
            4
        } else {
            0
        },
        bytes[0] < 0xc2 || bytes[0] > 0xf7 ==> keys::decode(bytes, Encoding::Utf8)
            == Decoded::Ignored,
        keys::decode(bytes, Encoding::Utf8) == Decoded::More || keys::decode(bytes, Encoding::Utf8)
            == Decoded::Ignored || keys::decode(bytes, Encoding::Utf8) matches Decoded::Key(
            Key::Char(_),
        ),
{
}

} // verus!

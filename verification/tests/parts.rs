use std::collections::VecDeque;

use embassy_shell::command::Args;
use embassy_shell::complete::complete_with;
use embassy_shell::history::{cut_line, push};
use embassy_shell::io::Io;
use embassy_shell::keys::{classify, Decoded, Encoding, Key, KeyDecoder};
use embassy_shell::line::Line;
use embassy_shell::parse::{
    common_prefix, next_char_boundary, prev_char_boundary, reset_slot, tokenize,
};
use embassy_shell::render::{builtin, pad, print_history, print_move, redraw};
use embassy_shell::shell::{run_step, Outcome, Step};
use embassy_shell::text::{blank, byte_len, first_word, leading, split, starts_with, trailing, word_count};
use embassy_shell::util::{cursor_move, StackWriter};
use embassy_shell::{Error, ErrorKind};

fn line_of(s: &str) -> Line {
    let mut line = Line::new();
    line.set(String::from(s));
    line
}

// ---------------------------------------------------------------------------
// Text
// ---------------------------------------------------------------------------

#[test]
fn whitespace_is_the_standard_one() {
    let mut c = '\0';
    loop {
        let s = String::from(c);
        assert_eq!(blank(&s), c.is_whitespace(), "{c:?}");
        assert_eq!(word_count(&s), s.split_whitespace().count(), "{c:?}");
        if c == '\u{ffff}' {
            break;
        }
        c = if c == '\u{d7ff}' {
            '\u{e000}'
        } else {
            char::from_u32(c as u32 + 1).unwrap()
        };
    }
}

#[test]
fn words_are_split_at_whitespace() {
    for s in ["", "a", " a ", "a b", "\u{a0}é  ü\u{2003}x ", "   "] {
        assert_eq!(word_count(s), s.split_whitespace().count());
        assert_eq!(first_word(s), s.split_whitespace().next().unwrap_or(""));
        assert_eq!(blank(s), s.trim().is_empty());
        assert_eq!(leading(s, true), s.len() - s.trim_start().len());
        assert_eq!(trailing(s, true), s.trim_end().len());
    }
}

#[test]
fn split_and_prefix() {
    assert_eq!(split("aéb", 3), ("aé", "b"));
    assert_eq!(byte_len("aéb"), 4);
    assert!(starts_with("étude", "é"));
    assert!(starts_with("x", ""));
    assert!(!starts_with("e", "étude"));
}

// ---------------------------------------------------------------------------
// The tokenizer
// ---------------------------------------------------------------------------

fn double_quotes(w: &str) -> String {
    format!("\"{}\"", w.replace('\\', "\\\\").replace('"', "\\\""))
}

#[test]
fn quoted_arguments_are_read_back() {
    let words = ["", "a b", "\"", "\\", "it's", "$x`y\\n", "tab\t", "é"];
    let mut line = String::new();
    for w in words {
        if !line.is_empty() {
            line.push(' ');
        }
        line.push_str(&double_quotes(w));
    }
    assert_eq!(tokenize(&line), words);
}

#[test]
fn single_quotes_are_literal() {
    assert_eq!(tokenize("'a\\b\"c' 'd e'"), ["a\\b\"c", "d e"]);
}

#[test]
fn rest_of_plain_arguments_splits_again() {
    let parts: Vec<String> = vec!["one".to_string(), "two".to_string(), "three".to_string()];
    let args = Args::new(&parts);
    assert_eq!(args.rest(), "one two three");
    assert_eq!(tokenize(&args.rest()), parts);
    assert_eq!(Args::new(&[]).rest(), "");
}

#[test]
fn escapes_in_tokens() {
    // Between double quotes a backslash is only special before some characters.
    assert_eq!(tokenize(r#""\$ \` \n""#), ["$ ` \\n"]);
    // Quoted sections join what stands beside them.
    assert_eq!(tokenize(r#"a"b c"'d'e"#), ["ab cde"]);
    // Open quotes and a trailing backslash end with the line.
    assert_eq!(tokenize("a 'b c"), ["a", "b c"]);
    assert_eq!(tokenize("a \"b c"), ["a", "b c"]);
    assert_eq!(tokenize("a \"b\\"), ["a", "b"]);
    assert_eq!(tokenize("a\\"), ["a"]);
    assert_eq!(tokenize("\t a\tb"), ["a", "b"]);
}

#[test]
fn slots_are_reset() {
    let mut tokens = vec![String::from("old")];
    reset_slot(&mut tokens, 0);
    assert_eq!(tokens, [""]);
    reset_slot(&mut tokens, 1);
    assert_eq!(tokens, ["", ""]);
}

#[test]
fn boundaries_of_characters() {
    let s = "aé€";
    assert_eq!(prev_char_boundary(s, 6), 3);
    assert_eq!(prev_char_boundary(s, 3), 1);
    assert_eq!(prev_char_boundary(s, 1), 0);
    assert_eq!(next_char_boundary(s, 2), 3);
    assert_eq!(next_char_boundary(s, 4), 6);
    assert_eq!(next_char_boundary(s, 3), 3);
    assert_eq!(next_char_boundary(s, 6), 6);
}

#[test]
fn common_prefix_is_longest() {
    assert_eq!(common_prefix(&["status", "start", "stay"]), "sta");
    assert_eq!(common_prefix(&["é1", "ê1"]), "");
    assert_eq!(common_prefix(&["ab", "abc", "ab"]), "ab");
}

// ---------------------------------------------------------------------------
// The line
// ---------------------------------------------------------------------------

#[test]
fn edits_undo_each_other() {
    let mut line = line_of("aé");
    assert!(line.left());
    line.insert('€');
    assert_eq!((line.before(), line.after()), ("a€", "é"));
    assert!(line.backspace());
    assert_eq!((line.before(), line.after()), ("a", "é"));
    line.insert('€');
    assert!(line.left());
    assert!(line.delete());
    assert_eq!((line.before(), line.after()), ("a", "é"));
    assert!(line.right());
    assert!(!line.right());
    assert!(!line.delete());
    assert_eq!((line.before(), line.after()), ("aé", ""));
    assert_eq!(line.home(), 2);
    assert!(!line.left());
    assert!(!line.backspace());
    assert_eq!((line.before(), line.after()), ("", "aé"));
    assert_eq!(line.end(), 2);
    assert!(line.is_at_end());
    assert_eq!(line.as_str(), "aé");
    assert_eq!(line.len(), 3);
}

#[test]
fn words_before_the_cursor_are_deleted() {
    let mut line = line_of("one two  ");
    // At the start of the line there is no previous word.
    line.home();
    assert!(!line.delete_word());
    assert_eq!((line.before(), line.after()), ("", "one two  "));
    line.end();
    assert!(line.delete_word());
    assert_eq!((line.before(), line.after()), ("one ", "  "));
    assert!(line.delete_word());
    assert_eq!((line.before(), line.after()), ("", "   "));
    assert!(!line.delete_word());
    // Inside a word, only what stands before the cursor goes.
    let mut line = line_of("éa bcd e");
    assert!(line.left() && line.left() && line.left());
    assert_eq!((line.before(), line.after()), ("éa bc", "d e"));
    assert!(line.delete_word());
    assert_eq!((line.before(), line.after()), ("éa ", "d e"));
    assert!(line.delete_word());
    assert_eq!((line.before(), line.after()), ("", " d e"));
    assert!(!line.delete_word());
    line.clear();
    assert_eq!(line.as_str(), "");
    assert!(!line.delete_word());
}

#[test]
fn tail_is_replaced() {
    let mut line = line_of("go é");
    line.replace_tail(2, "home ");
    assert_eq!((line.before(), line.after()), ("go home ", ""));
    line.replace_tail(0, "x");
    assert_eq!(line.as_str(), "go home x");
}

// ---------------------------------------------------------------------------
// Keys
// ---------------------------------------------------------------------------

#[test]
fn keys_are_decoded() {
    let cases: [(&[u8], Key); 19] = [
        (b"\r", Key::Enter),
        (b"\n", Key::Enter),
        (b"\x08", Key::Backspace),
        (b"\x7f", Key::Backspace),
        (b"\t", Key::Tab),
        (b"\x03", Key::CtrlC),
        (b"\x15", Key::CtrlU),
        (b"\x17", Key::CtrlW),
        (b"\x0c", Key::CtrlL),
        (b"\x1b[A", Key::Up),
        (b"\x1b[B", Key::Down),
        (b"\x1b[C", Key::Right),
        (b"\x1b[D", Key::Left),
        (b"\x1b[H", Key::Home),
        (b"\x1b[F", Key::End),
        (b"\x1b[3~", Key::Delete),
        (b" ", Key::Char(' ')),
        (b"~", Key::Char('~')),
        ("€".as_bytes(), Key::Char('€')),
    ];
    for (bytes, key) in cases {
        let mut d = KeyDecoder::new(Encoding::Utf8);
        for (i, b) in bytes.iter().enumerate() {
            let expected = if i + 1 < bytes.len() {
                Decoded::More
            } else {
                Decoded::Key(key)
            };
            assert_eq!(d.feed(*b), expected, "{bytes:?}");
        }
    }
}

#[test]
fn every_printable_character_is_one_key() {
    for c in ['\u{80}', '\u{7ff}', '\u{800}', '\u{ffff}', '\u{10000}', '\u{10ffff}', 'ж'] {
        let s = String::from(c);
        let bytes = s.as_bytes();
        for n in 1..bytes.len() {
            assert_eq!(classify(&bytes[..n], Encoding::Utf8), Decoded::More);
        }
        assert_eq!(
            classify(bytes, Encoding::Utf8),
            Decoded::Key(Key::Char(c))
        );
    }
}

#[test]
fn broken_sequences_are_ignored() {
    let cases: [&[u8]; 9] = [
        b"\x01",
        b"\x1bO",
        b"\x1b[5",
        b"\x1b[31",
        b"\x80",
        b"\xc1",
        b"\xe0\x80\x80",
        b"\xed\xa0\x80",
        b"\xf7\xbf\xbf\xbf",
    ];
    for bytes in cases {
        assert_eq!(
            classify(bytes, Encoding::Utf8),
            Decoded::Ignored,
            "{bytes:?}"
        );
    }
    assert_eq!(
        classify(b"\x80", Encoding::Latin1),
        Decoded::Key(Key::Char('\u{80}'))
    );
}

// ---------------------------------------------------------------------------
// Running
// ---------------------------------------------------------------------------

#[test]
fn steps_of_a_run() {
    let mut pending = None;
    assert_eq!(run_step(Step::Byte(b'a'), &mut pending), None);
    assert_eq!(run_step(Step::Byte(b'b'), &mut pending), None);
    assert_eq!(pending, Some(b'b'));
    assert_eq!(
        run_step(Step::Byte(3), &mut pending),
        Some(Outcome::Interrupted)
    );
    assert_eq!(pending, Some(b'b'));
    assert_eq!(run_step(Step::Eof, &mut pending), Some(Outcome::Eof));
    assert_eq!(
        run_step(Step::Done(Err(Error::Other)), &mut pending),
        Some(Outcome::Done(Err(Error::Other)))
    );
    assert_eq!(pending, Some(b'b'));
}

// ---------------------------------------------------------------------------
// History
// ---------------------------------------------------------------------------

#[test]
fn history_stays_within_limits() {
    let mut h = VecDeque::new();
    for line in ["a", "a", "bb", "ccc", "cccc", "a"] {
        push(&mut h, line, 3, 3);
        assert!(h.len() <= 3);
    }
    assert_eq!(h, ["bb", "ccc", "a"]);
}

#[test]
fn repeated_line_is_trimmed_too() {
    let mut h = VecDeque::from([String::from("a"), String::from("b")]);
    push(&mut h, "b", 2, 9);
    assert_eq!(h, ["a", "b"]);
    push(&mut h, "b", 1, 9);
    assert_eq!(h, ["b"]);
    push(&mut h, "c", 1, 9);
    assert_eq!(h, ["c"]);
    push(&mut h, "c", 0, 9);
    assert!(h.is_empty());
}

#[test]
fn cut_is_longest_prefix_that_fits() {
    assert_eq!(cut_line("aé€", 9), "aé€");
    assert_eq!(cut_line("aé€", 6), "aé€");
    assert_eq!(cut_line("aé€", 5), "aé");
    assert_eq!(cut_line("aé€", 2), "a");
    assert_eq!(cut_line("aé€", 0), "");
}

// ---------------------------------------------------------------------------
// Output
// ---------------------------------------------------------------------------

#[test]
fn stack_writer_drops_overflow() {
    let mut w = StackWriter::<4>::new();
    w.push(b'x');
    w.push_usize(0);
    w.push_usize(1234);
    w.push(b'y');
    assert_eq!(w.as_bytes(), b"x012");
}

#[test]
fn numbers_are_decimal() {
    for n in [0, 7, 10, 99, 100, 65535, usize::MAX] {
        let mut w = StackWriter::<20>::new();
        w.push_usize(n);
        assert_eq!(w.as_bytes(), n.to_string().as_bytes());
    }
}

#[test]
fn cursor_moves_are_ansi() {
    assert_eq!(cursor_move::<16>(12, b'D').as_bytes(), b"\x1b[12D");
    assert_eq!(
        cursor_move::<16>(9_999_999_999_999, b'C').as_bytes(),
        b"\x1b[9999999999999C"
    );
    // One digit more, and the direction does not fit.
    assert_eq!(
        cursor_move::<16>(10_000_000_000_000, b'C').as_bytes(),
        b"\x1b[10000000000000"
    );
    let mut io = Io::new();
    print_move(&mut io, 3, b'C');
    assert_eq!(io.flush(), b"\x1b[3C");
}

#[test]
fn line_is_redrawn_with_cursor() {
    let mut line = line_of("aéb");
    line.left();
    line.left();
    let mut io = Io::new();
    redraw(&mut io, "> ", &line);
    assert_eq!(io.flush(), "\r> aéb\x1b[K\x1b[2D".as_bytes());
}

#[test]
fn history_numbers_are_right_aligned() {
    let mut h = VecDeque::new();
    for i in 0..10 {
        h.push_back(format!("cmd{i}"));
    }
    let mut io = Io::new();
    print_history(&mut io, &h);
    let out = String::from_utf8(io.flush()).unwrap();
    assert!(out.starts_with("   1  cmd0\r\n   2  cmd1\r\n"), "{out}");
    assert!(out.ends_with("   9  cmd8\r\n  10  cmd9\r\n"), "{out}");
    assert_eq!(out.lines().count(), 10);
}

#[test]
fn padding_and_builtins() {
    let mut io = Io::new();
    pad(&mut io, 0);
    pad(&mut io, 3);
    assert_eq!(io.flush(), b"   ");
    assert_eq!(builtin(0), ("help", "list available commands"));
    assert_eq!(builtin(1), ("history", "show command history"));
    assert_eq!(builtin(2), ("clear", "clear the screen"));
}

#[test]
fn completion_with_given_candidates() {
    let mut io = Io::new();
    let mut line = line_of("go é");
    complete_with("> ", &mut line, &mut io, &[]);
    assert_eq!(line.as_str(), "go é");
    assert_eq!(io.flush(), b"");
    complete_with("> ", &mut line, &mut io, &["éab", "éac"]);
    assert_eq!(line.as_str(), "go éa");
    assert_eq!(
        io.flush(),
        "\r\néab  éac\r\n\r> go éa\x1b[K".as_bytes()
    );
    complete_with("> ", &mut line, &mut io, &["éac"]);
    assert_eq!(line.as_str(), "go éac ");
    assert_eq!(io.flush(), "\r> go éac \x1b[K".as_bytes());
}

// ---------------------------------------------------------------------------
// Errors
// ---------------------------------------------------------------------------

#[test]
fn errors_have_messages() {
    let cases = [
        (ErrorKind::Other, "io error"),
        (ErrorKind::NotFound, "not found"),
        (ErrorKind::PermissionDenied, "permission denied"),
        (ErrorKind::ConnectionRefused, "connection refused"),
        (ErrorKind::ConnectionReset, "connection reset"),
        (ErrorKind::ConnectionAborted, "connection aborted"),
        (ErrorKind::NotConnected, "not connected"),
        (ErrorKind::AddrInUse, "address in use"),
        (ErrorKind::AddrNotAvailable, "address not available"),
        (ErrorKind::BrokenPipe, "broken pipe"),
        (ErrorKind::AlreadyExists, "already exists"),
        (ErrorKind::InvalidInput, "invalid input"),
        (ErrorKind::InvalidData, "invalid data"),
        (ErrorKind::TimedOut, "timed out"),
        (ErrorKind::Interrupted, "interrupted"),
        (ErrorKind::Unsupported, "unsupported"),
        (ErrorKind::OutOfMemory, "out of memory"),
        (ErrorKind::WriteZero, "write zero"),
    ];
    for (kind, message) in cases {
        let e = Error::from(kind);
        assert_eq!(e, Error::Io(kind));
        assert_eq!(e.kind(), kind);
        assert_eq!(e.message(), message);
        assert_eq!(e.display(), format!("io error: {kind:?}"));
        assert_eq!(kind.name(), format!("{kind:?}"));
    }
    assert_eq!(Error::Other.kind(), ErrorKind::Other);
    assert_eq!(Error::Other.message(), "shell error");
    assert_eq!(Error::Other.display(), "shell error");
}

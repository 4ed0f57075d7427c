use embassy_shell::{run_step, Args, Encoding, Error, ErrorKind, Input, Io, Next, Shell, Step};

/// A handler writes its output and returns how it ended, or `None` to hang.
type Handler = Box<dyn Fn(Args<'_>, &mut Io) -> Option<Result<(), Error>>>;
type Completer = Box<dyn Fn(usize, &str) -> Vec<String>>;
type TestShell = Shell<Handler, Completer>;

/// Read one byte: how many were read, and the byte.
fn next_read(data: &[u8], pos: &mut usize) -> (Result<usize, ErrorKind>, u8) {
    if *pos < data.len() {
        *pos += 1;
        (Ok(1), data[*pos - 1])
    } else {
        (Ok(0), 0)
    }
}

/// Run the shell on `input` until its end, and collect what it prints.
fn run_bytes(shell: &mut TestShell, input: &[u8], encoding: Encoding) -> Vec<u8> {
    let mut io = Io::new();
    let mut pos = 0;
    let mut pending = None;
    let mut session = shell.start(encoding, &mut io);
    loop {
        let read = match Input::take_pending(&mut pending) {
            Some(kept) => kept,
            None => {
                let (n, b) = next_read(input, &mut pos);
                Input::of_read(n, b)
            }
        };
        let mut next = shell.on_input(&mut session, read, &mut io);
        if next == Next::Submit {
            next = shell.submit(&mut session, &mut io);
        }
        if let Next::Run(i) = next {
            let ended = (shell.command(i).handler)(session.args(), &mut io);
            let outcome = loop {
                let step = match ended {
                    Some(r) => Step::Done(r),
                    None => {
                        let (n, b) = next_read(input, &mut pos);
                        Step::of_read(n, b)
                    }
                };
                if let Some(outcome) = run_step(step, &mut pending) {
                    break outcome;
                }
            };
            next = shell.finish(i, outcome, &mut io);
        }
        if let Next::Stop(r) = next {
            r.unwrap();
            return io.flush();
        }
    }
}

fn run(shell: &mut TestShell, input: &[u8]) -> String {
    let out = run_bytes(shell, input, Encoding::Utf8);
    String::from_utf8_lossy(&out).into_owned()
}

fn new_shell() -> TestShell {
    Shell::new()
}

fn echo_cmd(shell: &mut TestShell) {
    shell.add_command(
        "echo",
        "print arguments",
        Box::new(|args, io| {
            io.println(&args.rest());
            Some(Ok(()))
        }),
    );
}

fn quiet() -> Handler {
    Box::new(|_args, _io| Some(Ok(())))
}

fn hang() -> Handler {
    Box::new(|_args, _io| None)
}

#[test]
fn runs_command() {
    let mut sh = new_shell();
    echo_cmd(&mut sh);
    let out = run(&mut sh, b"echo hello world\r\n");
    assert!(out.contains("hello world"), "{out}");
}

#[test]
fn crlf_and_quoted_args() {
    let mut sh = new_shell();
    echo_cmd(&mut sh);
    let out = run(&mut sh, b"echo \"one two\"\n");
    assert!(out.contains("one two"), "{out}");
}

#[test]
fn unknown_command() {
    let mut sh = new_shell();
    let out = run(&mut sh, b"foo bar\r\n");
    assert!(out.contains("foo: command not found"), "{out}");
}

#[test]
fn tab_completes_command_uniquely() {
    let mut sh = new_shell();
    echo_cmd(&mut sh);
    let out = run(&mut sh, b"ec\t\r\n");
    // The line was completed to `echo ` and then executed.
    assert!(out.contains("embassy> echo "), "{out}");
    assert!(!out.contains("command not found"), "{out}");
}

#[test]
fn tab_lists_ambiguous_candidates() {
    let mut sh = new_shell();
    echo_cmd(&mut sh);
    sh.add_command("edd", "", quiet());
    let out = run(&mut sh, b"e\t");
    assert!(out.contains("echo"), "{out}");
    assert!(out.contains("edd"), "{out}");
    assert!(out.contains("embassy> e"), "{out}");
}

fn led_cmd(shell: &mut TestShell) {
    shell.add_command_with_options(
        "led",
        "led control",
        &["on", "off", "blink"],
        Box::new(|args, io| {
            io.println(args.get(0).unwrap_or("?"));
            Some(Ok(()))
        }),
    );
}

#[test]
fn tab_completes_options() {
    let mut sh = new_shell();
    led_cmd(&mut sh);
    // `of` is a unique prefix of `off`.
    let out = run(&mut sh, b"led of\t\r\n");
    assert!(out.contains("embassy> led off "), "{out}");
    // Executed with `off`.
    assert!(out.contains("\r\noff\r\n"), "{out}");
    // `o` is ambiguous between `on` and `off`: both are listed.
    let out = run(&mut sh, b"led o\t");
    assert!(out.contains("on") && out.contains("off"), "{out}");
    assert!(out.contains("embassy> led o"), "{out}");
}

#[test]
fn history_recall() {
    let mut sh = new_shell();
    echo_cmd(&mut sh);
    let out = run(&mut sh, b"echo one\r\necho two\r\n\x1b[A\r\n");
    // `two` printed twice (second run via history), `one` once.
    assert_eq!(out.matches("\r\ntwo\r\n").count(), 2, "{out}");
    assert_eq!(out.matches("\r\none\r\n").count(), 1, "{out}");
}

#[test]
fn history_builtin_lists() {
    let mut sh = new_shell();
    echo_cmd(&mut sh);
    let out = run(&mut sh, b"echo x\r\nhistory\r\n");
    assert!(out.contains("echo x"), "{out}");
}

#[test]
fn ctrl_c_at_prompt_clears_line() {
    let mut sh = new_shell();
    echo_cmd(&mut sh);
    let out = run(&mut sh, b"garbage\x03echo ok\r\n");
    // After Ctrl-C the line is discarded; the next line still runs.
    assert!(out.contains("ok"), "{out}");
    assert!(!out.contains("garbage: command not found"), "{out}");
}

#[test]
fn ctrl_c_interrupts_running_command() {
    let mut sh = new_shell();
    sh.add_command("hang", "never returns", hang());
    let out = run(&mut sh, b"hang\r\x03");
    assert!(out.contains("^C"), "{out}");
}

#[test]
fn help_lists_commands_and_builtins() {
    let mut sh = new_shell();
    echo_cmd(&mut sh);
    let out = run(&mut sh, b"help\r\n");
    assert!(out.contains("echo"), "{out}");
    assert!(out.contains("list available commands"), "{out}");
    assert!(out.contains("history"), "{out}");
}

#[test]
fn ctrl_u_kills_line() {
    let mut sh = new_shell();
    echo_cmd(&mut sh);
    let out = run(&mut sh, b"oops\x15echo fine\r\n");
    assert!(out.contains("fine"), "{out}");
    assert!(!out.contains("oops: command not found"), "{out}");
}

#[test]
fn left_right_editing() {
    let mut sh = new_shell();
    echo_cmd(&mut sh);
    // "ech o", Left, Backspace gives "echo", which prints an empty line.
    let out = run(&mut sh, b"ech o\x1b[D\x7f\r\n");
    assert!(!out.contains("command not found"), "{out}");
}

#[test]
fn line_cap_rejects_with_bell() {
    let mut sh = new_shell();
    sh.max_line_len(5);
    echo_cmd(&mut sh);
    // "echo " fills the 5-byte cap; the argument is rejected with BELs
    // and never reaches the command.
    let out = run(&mut sh, b"echo hello\r\n");
    assert!(out.contains('\u{7}'), "{out:?}");
    assert!(!out.contains("hello"), "{out:?}");
    assert!(!out.contains("command not found"), "{out:?}");
}

#[test]
fn history_entry_truncated() {
    let mut sh = new_shell();
    sh.max_history_len(4);
    // `help` is a builtin: its own output cannot be confused with the
    // history listing below.
    let out = run(&mut sh, b"help XXXXXXXXXXXX\nhistory\r\n");
    // The listing shows the entry truncated to 4 bytes.
    assert!(out.contains("   1  help\r\n"), "{out:?}");
    assert!(!out.contains("   1  help "), "{out:?}");
}

// ---------------------------------------------------------------------------
// Whole sessions, byte by byte
// ---------------------------------------------------------------------------

#[test]
fn whole_session_output() {
    let mut sh = new_shell();
    echo_cmd(&mut sh);
    assert_eq!(
        run(&mut sh, b"echo hi\r"),
        "embassy> echo hi\r\nhi\r\nembassy> "
    );
}

#[test]
fn crlf_enters_once() {
    let mut sh = new_shell();
    echo_cmd(&mut sh);
    let cr = run(&mut sh, b"echo a\r");
    let lf = run(&mut sh, b"echo a\n");
    assert_eq!(cr, lf);
    let both = run(&mut sh, b"echo a\r\n");
    // The second byte finds an empty line and only prints the prompt.
    assert_eq!(both, format!("{cr}\r\nembassy> "));
}

#[test]
fn greeting_and_options_example() {
    let mut sh = new_shell();
    sh.add_command(
        "hello",
        "greet someone",
        Box::new(|args, io| {
            io.println(&format!("Hello, {}!", args.get(0).unwrap_or("world")));
            Some(Ok(()))
        }),
    );
    sh.add_command_with_options(
        "led",
        "switch the led on or off",
        &["on", "off"],
        Box::new(|args, io| {
            io.println(match args.get(0) {
                Some("on") => "led on",
                Some("off") => "led off",
                _ => "usage: led on|off",
            });
            Some(Ok(()))
        }),
    );
    let out = run(&mut sh, b"hello bob\nled on\n");
    assert!(out.contains("Hello, bob!"), "{out}");
    assert!(out.contains("led on"), "{out}");
}

#[test]
fn blank_line_only_prints_prompt() {
    let mut sh = new_shell();
    assert_eq!(run(&mut sh, b"  \r"), "embassy>   \r\nembassy> ");
    assert_eq!(
        run(&mut sh, b"history\r"),
        "embassy> history\r\n   1  history\r\nembassy> "
    );
}

#[test]
fn prompt_can_be_set() {
    let mut sh = new_shell();
    sh.prompt("$ ").max_history(2).max_history_len(5).max_line_len(9);
    assert_eq!(run(&mut sh, b"x\r"), "$ x\r\nx: command not found\r\n$ ");
}

#[test]
fn default_shell_is_new_shell() {
    let mut sh: TestShell = Default::default();
    assert!(sh.command_names().is_empty());
    assert_eq!(run(&mut sh, b""), "embassy> ");
}

#[test]
fn clear_and_ctrl_l_clear_screen() {
    let mut sh = new_shell();
    assert_eq!(
        run(&mut sh, b"clear\r"),
        "embassy> clear\r\n\x1b[2J\x1b[Hembassy> "
    );
    assert_eq!(
        run(&mut sh, b"ab\x0c"),
        "embassy> ab\x1b[2J\x1b[H\rembassy> ab\x1b[K"
    );
}

#[test]
fn help_output_is_aligned() {
    let mut sh = new_shell();
    echo_cmd(&mut sh);
    sh.add_command("a-very-long-name", "long", quiet());
    sh.add_command("clear", "mine", quiet());
    assert_eq!(
        run(&mut sh, b"help\r"),
        "embassy> help\r\n  echo        print arguments\r\n  a-very-long-namelong\r\n\
         \x20 clear       mine\r\n  help        list available commands\r\n\
         \x20 history     show command history\r\nembassy> "
    );
}

#[test]
fn user_command_shadows_builtin() {
    let mut sh = new_shell();
    sh.add_command(
        "help",
        "my help",
        Box::new(|_args, io| {
            io.println("mine");
            Some(Ok(()))
        }),
    );
    assert_eq!(run(&mut sh, b"help\r"), "embassy> help\r\nmine\r\nembassy> ");
}

#[test]
fn registering_again_replaces_in_place() {
    let mut sh = new_shell();
    sh.add_command("a", "first", quiet());
    sh.add_command("b", "second", quiet());
    sh.add_command(
        "a",
        "third",
        Box::new(|_args, io| {
            io.println("new");
            Some(Ok(()))
        }),
    );
    assert_eq!(sh.command_names(), ["a", "b"]);
    assert_eq!(sh.command(0).help, "third");
    assert_eq!(sh.command(1).help, "second");
    let out = run(&mut sh, b"a\r");
    assert!(out.contains("\r\nnew\r\n"), "{out}");
}

#[test]
fn failed_command_is_reported() {
    let mut sh = new_shell();
    sh.add_command(
        "bad",
        "",
        Box::new(|_args, _io| Some(Err(Error::Io(ErrorKind::TimedOut)))),
    );
    sh.add_command("worse", "", Box::new(|_args, _io| Some(Err(Error::Other))));
    assert_eq!(
        run(&mut sh, b"bad\rworse\r"),
        "embassy> bad\r\nbad: timed out\r\nembassy> worse\r\nworse: shell error\r\nembassy> "
    );
}

#[test]
fn interrupt_prints_prompt_and_goes_on() {
    let mut sh = new_shell();
    echo_cmd(&mut sh);
    sh.add_command("hang", "", hang());
    assert_eq!(
        run(&mut sh, b"hang\r\x03echo on\r"),
        "embassy> hang\r\n^C\r\nembassy> echo on\r\non\r\nembassy> "
    );
}

#[test]
fn only_most_recent_byte_is_kept() {
    let mut sh = new_shell();
    echo_cmd(&mut sh);
    sh.add_command("hang", "", hang());
    // `abe` is typed while `hang` runs: only `e` survives the interrupt.
    assert_eq!(
        run(&mut sh, b"hang\rabe\x03cho on\r"),
        "embassy> hang\r\n^C\r\nembassy> echo on\r\non\r\nembassy> "
    );
}

#[test]
fn end_of_input_ends_running_command() {
    let mut sh = new_shell();
    sh.add_command("hang", "", hang());
    assert_eq!(run(&mut sh, b"hang\rxyz"), "embassy> hang\r\n");
}

#[test]
fn failed_input_ends_session_with_error() {
    let sh = new_shell();
    let mut io = Io::new();
    let mut session = sh.start(Encoding::Utf8, &mut io);
    let read = Input::of_read(Err(ErrorKind::ConnectionReset), 0);
    assert_eq!(read, Input::Failed(ErrorKind::ConnectionReset));
    let next = sh.on_input(&mut session, read, &mut io);
    assert_eq!(
        next,
        Next::Stop(Err(Error::Io(ErrorKind::ConnectionReset)))
    );
}

#[test]
fn reads_are_interpreted() {
    let reset = Err(ErrorKind::ConnectionReset);
    assert_eq!(Input::of_read(Ok(1), 7), Input::Byte(7));
    assert_eq!(Input::of_read(Ok(0), 7), Input::Eof);
    assert_eq!(
        Input::of_read(reset, 7),
        Input::Failed(ErrorKind::ConnectionReset)
    );
    assert_eq!(Step::of_read(Ok(1), 7), Step::Byte(7));
    assert_eq!(Step::of_read(Ok(0), 7), Step::Eof);
    assert_eq!(Step::of_read(reset, 7), Step::Eof);
    // More than was asked for ends a session, but not the run of a command.
    assert_eq!(Input::of_read(Ok(2), 7), Input::Eof);
    assert_eq!(Step::of_read(Ok(2), 7), Step::Byte(7));
}

// ---------------------------------------------------------------------------
// Editing
// ---------------------------------------------------------------------------

#[test]
fn right_moves_cursor() {
    let mut sh = new_shell();
    echo_cmd(&mut sh);
    // "echo ac", Home, six times Right, "b".
    let out = run(
        &mut sh,
        b"echo ac\x1b[H\x1b[C\x1b[C\x1b[C\x1b[C\x1b[C\x1b[Cb\r",
    );
    assert_eq!(
        out,
        "embassy> echo ac\x1b[7D\x1b[C\x1b[C\x1b[C\x1b[C\x1b[C\x1b[C\
         \rembassy> echo abc\x1b[K\x1b[1D\r\nabc\r\nembassy> "
    );
}

#[test]
fn right_at_end_does_nothing() {
    let mut sh = new_shell();
    assert_eq!(run(&mut sh, b"ab\x1b[C\x1b[F\x1b[3~"), "embassy> ab");
    assert_eq!(run(&mut sh, b"\x1b[D\x1b[H\x7f"), "embassy> ");
}

#[test]
fn delete_erases_at_cursor() {
    let mut sh = new_shell();
    echo_cmd(&mut sh);
    let out = run(&mut sh, b"echo axb\x1b[D\x1b[D\x1b[3~\r");
    assert_eq!(
        out,
        "embassy> echo axb\x1b[D\x1b[D\rembassy> echo ab\x1b[K\x1b[1D\r\nab\r\nembassy> "
    );
}

#[test]
fn delete_erases_multibyte_character() {
    let mut sh = new_shell();
    echo_cmd(&mut sh);
    let out = run(&mut sh, "echo aяb\x1b[D\x1b[D\x1b[3~\r".as_bytes());
    assert!(out.ends_with("\r\nab\r\nembassy> "), "{out:?}");
}

#[test]
fn backspace_erases_multibyte_character() {
    let mut sh = new_shell();
    echo_cmd(&mut sh);
    let out = run(&mut sh, "echo a€\x7f\x08ю\r".as_bytes());
    assert!(out.ends_with("\r\nю\r\nembassy> "), "{out:?}");
}

#[test]
fn home_and_end_count_characters() {
    let mut sh = new_shell();
    assert_eq!(
        run(&mut sh, "жук\x1b[H\x1b[F".as_bytes()),
        "embassy> жук\x1b[3D\x1b[3C"
    );
}

#[test]
fn ctrl_w_deletes_last_word() {
    let mut sh = new_shell();
    echo_cmd(&mut sh);
    let out = run(&mut sh, b"echo one two\x17\r");
    assert_eq!(
        out,
        "embassy> echo one two\rembassy> echo one \x1b[K\r\none\r\nembassy> "
    );
    // Whitespace behind the word stays, and the cursor is before it.
    assert_eq!(
        run(&mut sh, b"a b  \x17"),
        "embassy> a b  \rembassy> a   \x1b[K\x1b[2D"
    );
    // A blank line is left alone.
    assert_eq!(run(&mut sh, b"  \x17"), "embassy>   ");
}

#[test]
fn ctrl_w_deletes_word_before_cursor() {
    let mut sh = new_shell();
    // At the start of the line there is none, and the line runs as it is.
    assert_eq!(
        run(&mut sh, b"ab\x1b[H\x17\r"),
        "embassy> ab\x1b[2D\r\nab: command not found\r\nembassy> "
    );
    // What stands behind the cursor stays.
    assert_eq!(
        run(&mut sh, b"ab cd\x1b[D\x17"),
        "embassy> ab cd\x1b[D\rembassy> ab d\x1b[K\x1b[1D"
    );
}

#[test]
fn ctrl_w_stops_at_wide_whitespace() {
    let mut sh = new_shell();
    // An ideographic space takes three bytes.
    assert_eq!(
        run(&mut sh, "a\u{3000}b\x17".as_bytes()),
        "embassy> a\u{3000}b\rembassy> a\u{3000}\x1b[K"
    );
}

#[test]
fn ctrl_u_redraws_empty_line() {
    let mut sh = new_shell();
    assert_eq!(run(&mut sh, b"ab\x15"), "embassy> ab\rembassy> \x1b[K");
}

#[test]
fn line_cap_counts_bytes() {
    let mut sh = new_shell();
    sh.max_line_len(3);
    // The second character of two bytes does not fit, an ASCII one does.
    assert_eq!(
        run(&mut sh, "éüa".as_bytes()),
        "embassy> é\x07a"
    );
}

// ---------------------------------------------------------------------------
// Keys
// ---------------------------------------------------------------------------

#[test]
fn ignored_sequences_do_not_end_session() {
    let mut sh = new_shell();
    echo_cmd(&mut sh);
    // Unknown escapes, an unmapped control character, a stray continuation
    // byte and a broken sequence.
    let out = run(
        &mut sh,
        b"echo \x1bx\x1b[Z\x1b[3x\x01\x80\xc3(\xf5\x80\x80\x80\xffok\r",
    );
    assert_eq!(out, "embassy> echo ok\r\nok\r\nembassy> ");
}

#[test]
fn utf8_input_is_decoded() {
    let mut sh = new_shell();
    echo_cmd(&mut sh);
    assert_eq!(
        run(&mut sh, "echo é€😀\r".as_bytes()),
        "embassy> echo é€😀\r\né€😀\r\nembassy> "
    );
}

#[test]
fn latin1_bytes_are_characters() {
    let mut sh = new_shell();
    echo_cmd(&mut sh);
    let out = run_bytes(&mut sh, b"echo \xe9\xff\r", Encoding::Latin1);
    assert_eq!(
        String::from_utf8(out).unwrap(),
        "embassy> echo éÿ\r\néÿ\r\nembassy> "
    );
}

#[test]
fn end_of_input_inside_a_key_ends_session() {
    let mut sh = new_shell();
    assert_eq!(run(&mut sh, b"a\x1b["), "embassy> a");
    assert_eq!(run(&mut sh, b"a\xe2\x82"), "embassy> a");
}

// ---------------------------------------------------------------------------
// History
// ---------------------------------------------------------------------------

#[test]
fn down_restores_draft() {
    let mut sh = new_shell();
    echo_cmd(&mut sh);
    let out = run(&mut sh, b"echo one\recho dra\x1b[A\x1b[Bft\r");
    assert!(out.ends_with("\r\ndraft\r\nembassy> "), "{out:?}");
}

#[test]
fn history_walks_both_ways() {
    let mut sh = new_shell();
    echo_cmd(&mut sh);
    let out = run(
        &mut sh,
        b"echo 1\recho 2\recho 3\r\x1b[A\x1b[A\x1b[A\x1b[A\x1b[B\r",
    );
    assert!(out.ends_with("\r\n2\r\nembassy> "), "{out:?}");
}

#[test]
fn later_session_recalls_history() {
    let mut sh = new_shell();
    run(&mut sh, b"foo\r");
    let out = run(&mut sh, b"\x1b[A\r");
    assert_eq!(
        out,
        "embassy> \rembassy> foo\x1b[K\r\nfoo: command not found\r\nembassy> "
    );
    // Down leaves what has been typed alone, and brings it back after Up.
    assert_eq!(run(&mut sh, b"ab\x1b[B"), "embassy> ab");
    assert_eq!(
        run(&mut sh, b"ab\x1b[A\x1b[B"),
        "embassy> ab\rembassy> foo\x1b[K\rembassy> ab\x1b[K"
    );
}

#[test]
fn lower_limit_applies_to_repeated_line() {
    let mut sh = new_shell();
    sh.push_history("a");
    sh.push_history("b");
    sh.max_history(1);
    sh.push_history("b");
    // One entry is left: going up twice stays on it.
    assert_eq!(
        run(&mut sh, b"\x1b[A\x1b[A"),
        "embassy> \rembassy> b\x1b[K"
    );
}

#[test]
fn repeated_line_is_remembered_once() {
    let mut sh = new_shell();
    let out = run(&mut sh, b"x\rx\rhistory\r");
    assert!(
        out.ends_with("history\r\n   1  x\r\n   2  history\r\nembassy> "),
        "{out:?}"
    );
}

#[test]
fn oldest_entries_are_dropped() {
    let mut sh = new_shell();
    sh.max_history(2);
    let out = run(&mut sh, b"a\rb\rhistory\r");
    assert!(
        out.ends_with("history\r\n   1  b\r\n   2  history\r\nembassy> "),
        "{out:?}"
    );
    sh.max_history(0);
    let out = run(&mut sh, b"c\rhistory\r");
    assert!(out.ends_with("history\r\nembassy> "), "{out:?}");
}

#[test]
fn history_is_cut_at_character_boundary() {
    let mut sh = new_shell();
    sh.max_history_len(3);
    sh.push_history("aéü");
    sh.push_history("€uro");
    let out = run(&mut sh, b"history\r");
    assert!(
        out.contains("   1  aé\r\n   2  €\r\n   3  his\r\n"),
        "{out:?}"
    );
}

#[test]
fn history_of_no_length_holds_empty_lines() {
    let mut sh = new_shell();
    sh.max_history_len(0);
    let out = run(&mut sh, b"a\rb\rhistory\r");
    assert!(out.ends_with("history\r\n   1  \r\nembassy> "), "{out:?}");
}

// ---------------------------------------------------------------------------
// Completion
// ---------------------------------------------------------------------------

#[test]
fn ambiguous_completion_inserts_common_prefix() {
    let mut sh = new_shell();
    sh.add_command("status", "", quiet());
    sh.add_command("start", "", quiet());
    assert_eq!(
        run(&mut sh, b"s\t"),
        "embassy> s\r\nstatus  start\r\n\rembassy> sta\x1b[K"
    );
    // Nothing more to insert: only the list is printed.
    assert_eq!(
        run(&mut sh, b"sta\t"),
        "embassy> sta\r\nstatus  start\r\n\rembassy> sta\x1b[K"
    );
}

#[test]
fn empty_line_offers_every_command_once() {
    let mut sh = new_shell();
    sh.add_command("zap", "", quiet());
    sh.add_command("help", "", quiet());
    assert_eq!(
        run(&mut sh, b"\t"),
        "embassy> \r\nzap  help  history  clear\r\n\rembassy> \x1b[K"
    );
}

#[test]
fn no_candidates_change_nothing() {
    let mut sh = new_shell();
    echo_cmd(&mut sh);
    assert_eq!(run(&mut sh, b"zz\t"), "embassy> zz");
    assert_eq!(run(&mut sh, b"echo \t"), "embassy> echo ");
    assert_eq!(run(&mut sh, b"nope x\t"), "embassy> nope x");
}

#[test]
fn completion_only_at_end_of_line() {
    let mut sh = new_shell();
    echo_cmd(&mut sh);
    assert_eq!(run(&mut sh, b"ec\x1b[D\t"), "embassy> ec\x1b[D");
}

#[test]
fn options_are_for_the_first_argument() {
    let mut sh = new_shell();
    led_cmd(&mut sh);
    assert_eq!(
        run(&mut sh, b"led \t"),
        "embassy> led \r\non  off  blink\r\n\rembassy> led \x1b[K"
    );
    assert_eq!(
        run(&mut sh, b"led b\t"),
        "embassy> led b\rembassy> led blink \x1b[K"
    );
    assert_eq!(run(&mut sh, b"led on b\t"), "embassy> led on b");
}

#[test]
fn custom_completer_is_asked() {
    let mut sh = new_shell();
    sh.add_command_with_completer(
        "set",
        "set a config key",
        quiet(),
        Box::new(|index, prefix| {
            if index == 1 {
                vec![format!("{prefix}ey")]
            } else {
                vec![format!("{prefix}{index}"), String::from("other")]
            }
        }),
    );
    assert_eq!(
        run(&mut sh, b"set k\t"),
        "embassy> set k\rembassy> set key \x1b[K"
    );
    assert_eq!(
        run(&mut sh, b"set key \t"),
        "embassy> set key \r\n2  other\r\n\rembassy> set key \x1b[K"
    );
}

#[test]
fn candidates_need_not_begin_with_the_token() {
    let mut sh = new_shell();
    sh.add_command_with_completer(
        "go",
        "",
        quiet(),
        Box::new(|_, _| vec![String::from("home")]),
    );
    assert_eq!(
        run(&mut sh, b"go xyz\t"),
        "embassy> go xyz\rembassy> go home \x1b[K"
    );
}

// ---------------------------------------------------------------------------
// Arguments
// ---------------------------------------------------------------------------

#[test]
fn args_are_what_was_typed() {
    let mut sh = new_shell();
    sh.add_command(
        "show",
        "",
        Box::new(|args, io| {
            io.println(&format!("{}:{}", args.len(), args.is_empty()));
            for a in args.iter() {
                io.println(&format!("[{a}]"));
            }
            io.println(args.get(9).unwrap_or("none"));
            io.write_all(b"raw\r\n");
            Some(Ok(()))
        }),
    );
    assert_eq!(
        run(&mut sh, b"show 'a b' \"c\\\"d\" e\\ f ''\r"),
        "embassy> show 'a b' \"c\\\"d\" e\\ f ''\r\n4:false\r\n[a b]\r\n[c\"d]\r\n[e f]\r\n[]\r\n\
         none\r\nraw\r\nembassy> "
    );
    assert_eq!(
        run(&mut sh, b"show\r"),
        "embassy> show\r\n0:true\r\nnone\r\nraw\r\nembassy> "
    );
}

#[test]
fn empty_command_name_is_unknown() {
    let mut sh = new_shell();
    assert_eq!(
        run(&mut sh, b"''\r"),
        "embassy> ''\r\n: command not found\r\nembassy> "
    );
}

#[test]
fn session_shows_its_line() {
    let sh = new_shell();
    let mut io = Io::new();
    let mut session = sh.start(Encoding::Utf8, &mut io);
    for b in b"ab" {
        let next = sh.on_input(&mut session, Input::Byte(*b), &mut io);
        assert_eq!(next, Next::Read);
    }
    assert_eq!(session.line(), "ab");
    assert_eq!(
        sh.on_input(&mut session, Input::Byte(b'\r'), &mut io),
        Next::Submit
    );
    assert_eq!(session.line(), "ab");
    assert_eq!(io.flush(), b"embassy> ab\r\n");
    assert_eq!(io.flush(), b"");
}

use embassy_shell::parse::{common_prefix, tokenize, tokenize_into};

#[test]
fn tokenize_plain() {
    assert_eq!(tokenize("  hello   world  "), ["hello", "world"]);
}

#[test]
fn tokenize_quotes() {
    assert_eq!(
        tokenize(r#"a "b c" 'd e' f\ g"#),
        ["a", "b c", "d e", "f g"]
    );
    assert_eq!(tokenize(r#""esc \" inside""#), ["esc \" inside"]);
    assert_eq!(tokenize(r#"'no \esc' x"#), ["no \\esc", "x"]);
}

#[test]
fn tokenize_empty_quoted_token() {
    assert_eq!(tokenize(r#"" " a"#), [" ", "a"]);
    assert_eq!(tokenize("'' b"), ["", "b"]);
}

#[test]
fn tokenize_into_matches_tokenize() {
    let cases = [
        "  hello   world  ",
        r#"a "b c" 'd e' f\ g"#,
        r#"" " a"#,
        "'' b",
        "",
        "   ",
        "one",
    ];
    let mut reused = Vec::new();
    for line in cases {
        let n = tokenize_into(line, &mut reused);
        assert_eq!(&reused[..n], &tokenize(line)[..], "line: {line:?}");
    }
}

#[test]
fn tokenize_into_reuses_slots() {
    let mut tokens = Vec::new();
    assert_eq!(tokenize_into("alpha beta gamma", &mut tokens), 3);
    assert_eq!(&tokens[..3], ["alpha", "beta", "gamma"]);
    let ptr = tokens[0].as_str().as_ptr();

    // Fewer, shorter tokens reuse the existing allocations.
    assert_eq!(tokenize_into("x y", &mut tokens), 2);
    assert_eq!(&tokens[..2], ["x", "y"]);
    assert_eq!(tokens[0].as_str().as_ptr(), ptr);

    // Growing back does not corrupt stale slots.
    assert_eq!(tokenize_into("gamma", &mut tokens), 1);
    assert_eq!(&tokens[..1], ["gamma"]);
}

#[test]
fn common_prefix_basic() {
    assert_eq!(common_prefix(&["led", "len", "ler"]), "le");
    assert_eq!(common_prefix(&["led"]), "led");
    let empty: &[&str] = &[];
    assert_eq!(common_prefix(empty), "");
    assert_eq!(common_prefix(&["abc", "xyz"]), "");
    assert_eq!(common_prefix(&["привет", "прикол"]), "при");
}

use vshell::scan::{parse, render_line};
use vshell::{Redirect, StageError};

#[test]
fn tokenize_plain_words() {
    let st = parse("echo hello world").unwrap();
    assert_eq!(st.cmd, "echo");
    assert_eq!(st.argv, vec!["hello".to_string(), "world".to_string()]);
    assert!(st.stdout_redir.is_none());
    assert!(st.stderr_redir.is_none());
}

#[test]
fn tokenize_tabs_separate_tokens() {
    let st = parse("echo\thi\t there").unwrap();
    assert_eq!(st.cmd, "echo");
    assert_eq!(st.argv, vec!["hi".to_string(), "there".to_string()]);
}

#[test]
fn tokenize_single_quotes_preserve_spaces() {
    let st = parse("echo 'a   b'").unwrap();
    assert_eq!(st.cmd, "echo");
    assert_eq!(st.argv, vec!["a   b".to_string()]);
}

#[test]
fn tokenize_double_quote_escapes() {
    let st = parse("echo \"a\\\"b\"").unwrap();
    assert_eq!(st.argv, vec!["a\"b".to_string()]);
    let st = parse("echo \"a\\\\b\"").unwrap();
    assert_eq!(st.argv, vec!["a\\b".to_string()]);
    // any other backslash keeps the backslash literally
    let st = parse("echo \"a\\nb\"").unwrap();
    assert_eq!(st.argv, vec!["a\\nb".to_string()]);
}

#[test]
fn tokenize_single_quote_round_trip() {
    let st = parse("'X yz'").unwrap();
    assert_eq!(st.cmd, "X yz");
    assert!(st.argv.is_empty());
}

#[test]
fn tokenize_double_quote_round_trip() {
    let st = parse("\"X y'z\"").unwrap();
    assert_eq!(st.cmd, "X y'z");
    assert!(st.argv.is_empty());
}

#[test]
fn tokenize_adjacent_quoted_segments_concat() {
    let st = parse("'a''b'").unwrap();
    assert_eq!(st.cmd, "ab");
    assert!(st.argv.is_empty());
    let st = parse("\"a\"b\"c\"").unwrap();
    assert_eq!(st.cmd, "abc");
    let st = parse("'a'\"b\"c").unwrap();
    assert_eq!(st.cmd, "abc");
}

#[test]
fn tokenize_escaped_space_joins_token() {
    let st = parse("a\\ b").unwrap();
    assert_eq!(st.cmd, "a b");
    assert!(st.argv.is_empty());
}

#[test]
fn tokenize_escaped_quote() {
    let st = parse("\\'").unwrap();
    assert_eq!(st.cmd, "'");
}

#[test]
fn tokenize_trailing_backslash_is_empty() {
    let st = parse("echo \\").unwrap();
    assert_eq!(st.cmd, "echo");
    assert_eq!(st.argv, vec![String::new()]);
}

#[test]
fn tokenize_unterminated_quotes_end_at_input() {
    let st = parse("'abc").unwrap();
    assert_eq!(st.cmd, "abc");
    let st = parse("\"abc").unwrap();
    assert_eq!(st.cmd, "abc");
}

#[test]
fn tokenize_stdout_create() {
    let st = parse("echo hi > /tmp/x").unwrap();
    assert_eq!(st.cmd, "echo");
    assert_eq!(st.argv, vec!["hi".to_string()]);
    assert!(matches!(&st.stdout_redir, Some(Redirect::Create(p)) if p == "/tmp/x"));
    assert!(st.stderr_redir.is_none());
}

#[test]
fn tokenize_stdout_append() {
    let st = parse("echo hi >> /tmp/x").unwrap();
    assert_eq!(st.argv, vec!["hi".to_string()]);
    assert!(matches!(&st.stdout_redir, Some(Redirect::Append(p)) if p == "/tmp/x"));
}

#[test]
fn tokenize_fd_operators() {
    let st = parse("a 1> f").unwrap();
    assert!(matches!(&st.stdout_redir, Some(Redirect::Create(p)) if p == "f"));
    let st = parse("a 1>> f").unwrap();
    assert!(matches!(&st.stdout_redir, Some(Redirect::Append(p)) if p == "f"));
    let st = parse("a 2> e").unwrap();
    assert!(st.stdout_redir.is_none());
    assert!(matches!(&st.stderr_redir, Some(Redirect::Create(p)) if p == "e"));
    let st = parse("a 2>> e").unwrap();
    assert!(matches!(&st.stderr_redir, Some(Redirect::Append(p)) if p == "e"));
}

#[test]
fn tokenize_operator_adjacent_to_word() {
    let st = parse("a>f").unwrap();
    assert_eq!(st.cmd, "a");
    assert!(st.argv.is_empty());
    assert!(matches!(&st.stdout_redir, Some(Redirect::Create(p)) if p == "f"));
}

#[test]
fn tokenize_digit_inside_token_is_no_operator() {
    let st = parse("echo a2>f").unwrap();
    assert_eq!(st.argv, vec!["a2".to_string()]);
    assert!(matches!(&st.stdout_redir, Some(Redirect::Create(p)) if p == "f"));
}

#[test]
fn tokenize_last_redirect_wins() {
    let st = parse("a > f > g").unwrap();
    assert_eq!(st.cmd, "a");
    assert!(st.argv.is_empty());
    assert!(matches!(&st.stdout_redir, Some(Redirect::Create(p)) if p == "g"));
}

#[test]
fn tokenize_quoted_redirect_target() {
    let st = parse("a > 'f g'").unwrap();
    assert!(matches!(&st.stdout_redir, Some(Redirect::Create(p)) if p == "f g"));
}

#[test]
fn tokenize_quoted_operator_is_literal() {
    let st = parse("echo '>'").unwrap();
    assert_eq!(st.argv, vec![">".to_string()]);
    assert!(st.stdout_redir.is_none());
}

#[test]
fn tokenize_missing_target_is_bad_redirect() {
    assert_eq!(parse("echo >").unwrap_err(), StageError::BadRedirect);
    assert_eq!(parse("echo > ").unwrap_err(), StageError::BadRedirect);
    assert_eq!(parse("echo 2>>").unwrap_err(), StageError::BadRedirect);
    assert_eq!(parse("echo > > f").unwrap_err(), StageError::BadRedirect);
}

#[test]
fn tokenize_blank_stage_is_empty() {
    assert_eq!(parse("").unwrap_err(), StageError::Empty);
    assert_eq!(parse("   ").unwrap_err(), StageError::Empty);
    // a redirection without any command word is no stage either
    assert_eq!(parse("> f").unwrap_err(), StageError::Empty);
}

#[test]
fn tokenize_argv_free_of_operators() {
    let st = parse("x a 1> f 2>> e b").unwrap();
    assert_eq!(st.cmd, "x");
    assert_eq!(st.argv, vec!["a".to_string(), "b".to_string()]);
    for ops in ["<", ">", ">>", "1>", "1>>", "2>", "2>>"] {
        assert!(!st.argv.iter().any(|t| t == ops));
    }
}

#[test]
fn render_then_parse_round_trip() {
    let tokens = vec![
        "a b".to_string(),
        ">".to_string(),
        String::new(),
        "it's".to_string(),
        "x|y".to_string(),
    ];
    let line = render_line(&tokens);
    let st = parse(&line).unwrap();
    assert_eq!(st.cmd, "a b");
    assert_eq!(
        st.argv,
        vec![
            ">".to_string(),
            String::new(),
            "it's".to_string(),
            "x|y".to_string(),
        ]
    );
    assert!(st.stdout_redir.is_none());
    assert!(st.stderr_redir.is_none());
}

#[test]
fn tokenize_rendered_tokens_round_trip() {
    // every character behind a backslash reads as itself, so a rendered
    // token list re-tokenizes to the same tokens
    let st = parse("\\a \\b\\ \\c").unwrap();
    assert_eq!(st.cmd, "a");
    assert_eq!(st.argv, vec!["b c".to_string()]);
    let st = parse("\\> ''").unwrap();
    assert_eq!(st.cmd, ">");
    assert_eq!(st.argv, vec![String::new()]);
    assert!(st.stdout_redir.is_none());
}

use vshell::builtins::{
    cd_plan, classify, echo_output, find_name, history_command, not_found_message, prepare_line,
    type_message, BuiltinKind, CdPlan, HistoryCmd,
};
use vshell::chars::{split_lines, split_on, trim, unlines};
use vshell::numfmt::{parse_count, parse_exit_code};
use vshell::scan::parse;

#[test]
fn classify_knows_every_builtin() {
    assert_eq!(classify("echo"), Some(BuiltinKind::Echo));
    assert_eq!(classify("exit"), Some(BuiltinKind::Exit));
    assert_eq!(classify("type"), Some(BuiltinKind::Type));
    assert_eq!(classify("pwd"), Some(BuiltinKind::Pwd));
    assert_eq!(classify("cd"), Some(BuiltinKind::Cd));
    assert_eq!(classify("history"), Some(BuiltinKind::History));
    assert_eq!(classify("ls"), None);
    assert_eq!(classify("Echo"), None);
    assert_eq!(classify("ech"), None);
}

#[test]
fn type_lines_are_byte_exact() {
    assert_eq!(type_message("echo", None), "echo is a shell builtin");
    let path = "/usr/bin/ls".to_string();
    assert_eq!(type_message("ls", Some(&path)), "ls is /usr/bin/ls");
    assert_eq!(type_message("nosuch", None), "nosuch: not found");
}

#[test]
fn unknown_command_line() {
    assert_eq!(not_found_message("nosuch"), "nosuch: not found");
}

#[test]
fn echo_joins_with_single_spaces() {
    let st = parse("echo hello world").unwrap();
    assert_eq!(echo_output(&st.argv), "hello world\n");
}

#[test]
fn echo_keeps_quoted_spacing() {
    let st = parse("echo 'a   b'").unwrap();
    assert_eq!(echo_output(&st.argv), "a   b\n");
    let st = parse("echo \"a\\\"b\"").unwrap();
    assert_eq!(echo_output(&st.argv), "a\"b\n");
}

#[test]
fn echo_with_redirect_writes_payload_only() {
    let st = parse("echo hi > /tmp/x").unwrap();
    assert_eq!(echo_output(&st.argv), "hi\n");
}

#[test]
fn echo_without_arguments_is_one_newline() {
    assert_eq!(echo_output(&Vec::new()), "\n");
}

#[test]
fn cd_home_expansion() {
    let tilde = "~".to_string();
    match cd_plan(Some(&tilde), "/home/u") {
        CdPlan::Go(p) => assert_eq!(p, "/home/u"),
        _ => panic!("cd ~ must go home unconditionally"),
    }
}

#[test]
fn cd_without_argument_stays() {
    assert!(matches!(cd_plan(None, "/home/u"), CdPlan::Stay));
}

#[test]
fn cd_missing_directory_message() {
    let target = "/nope".to_string();
    match cd_plan(Some(&target), "/home/u") {
        CdPlan::GoIfExists(p, msg) => {
            assert_eq!(p, "/nope");
            assert_eq!(msg, "cd: /nope: No such file or directory");
        }
        _ => panic!("cd to a path must test existence"),
    }
}

#[test]
fn history_command_forms() {
    let none: Vec<String> = Vec::new();
    assert!(matches!(history_command(&none, 7), HistoryCmd::List(7)));
    let rd = vec!["-r".to_string(), "f".to_string()];
    assert!(matches!(history_command(&rd, 0), HistoryCmd::ReadFile(p) if p == "f"));
    let wr = vec!["-w".to_string(), "f".to_string()];
    assert!(matches!(history_command(&wr, 0), HistoryCmd::WriteFile(p) if p == "f"));
    let ap = vec!["-a".to_string(), "f".to_string()];
    assert!(matches!(history_command(&ap, 0), HistoryCmd::AppendFile(p) if p == "f"));
    let lone = vec!["-r".to_string()];
    assert!(matches!(history_command(&lone, 0), HistoryCmd::Invalid));
    let count = vec!["2".to_string()];
    assert!(matches!(history_command(&count, 3), HistoryCmd::List(2)));
    let over = vec!["5".to_string()];
    assert!(matches!(history_command(&over, 3), HistoryCmd::List(3)));
    let junk = vec!["x".to_string()];
    assert!(matches!(history_command(&junk, 3), HistoryCmd::Invalid));
}

#[test]
fn exit_status_parsing() {
    assert_eq!(parse_exit_code("5"), 5);
    assert_eq!(parse_exit_code("0"), 0);
    assert_eq!(parse_exit_code("-3"), -3);
    assert_eq!(parse_exit_code("+7"), 7);
    assert_eq!(parse_exit_code("abc"), 0);
    assert_eq!(parse_exit_code(""), 0);
    assert_eq!(parse_exit_code("12x"), 0);
    assert_eq!(parse_exit_code("2147483647"), 2147483647);
    assert_eq!(parse_exit_code("2147483648"), 0);
    assert_eq!(parse_exit_code("-2147483648"), -2147483648);
    assert_eq!(parse_exit_code("-2147483649"), 0);
    assert_eq!(parse_exit_code("99999999999999999999"), 0);
}

#[test]
fn count_parsing() {
    assert_eq!(parse_count("0"), Some(0));
    assert_eq!(parse_count("42"), Some(42));
    assert_eq!(parse_count(""), None);
    assert_eq!(parse_count("-1"), None);
    assert_eq!(parse_count("4x"), None);
}

#[test]
fn path_splitting() {
    assert_eq!(
        split_on("/usr/bin:/bin", ':'),
        vec!["/usr/bin".to_string(), "/bin".to_string()]
    );
    assert_eq!(
        split_on("C:\\w;D:\\t", ';'),
        vec!["C:\\w".to_string(), "D:\\t".to_string()]
    );
    assert_eq!(split_on("", ':'), vec![String::new()]);
    assert_eq!(
        split_on("a::b", ':'),
        vec!["a".to_string(), String::new(), "b".to_string()]
    );
}

#[test]
fn first_matching_directory_entry_wins() {
    let names = vec!["x".to_string(), "ls".to_string(), "ls".to_string()];
    assert_eq!(find_name(&names, "ls"), Some(1));
    assert_eq!(find_name(&names, "cat"), None);
}

#[test]
fn line_preparation_trims_and_discards() {
    assert_eq!(prepare_line("  echo hi  "), Some("echo hi".to_string()));
    assert_eq!(prepare_line("\techo\t"), Some("echo".to_string()));
    assert_eq!(prepare_line("   "), None);
    assert_eq!(prepare_line(""), None);
    assert_eq!(trim("  a b  "), "a b");
}

#[test]
fn file_lines_tolerate_missing_final_newline() {
    assert_eq!(
        split_lines("a\nb"),
        vec!["a".to_string(), "b".to_string()]
    );
    assert_eq!(
        split_lines("a\nb\n"),
        vec!["a".to_string(), "b".to_string()]
    );
    assert_eq!(
        split_lines("a\r\nb\r\n"),
        vec!["a".to_string(), "b".to_string()]
    );
    assert_eq!(split_lines(""), Vec::<String>::new());
    assert_eq!(
        split_lines("a\n\nb"),
        vec!["a".to_string(), String::new(), "b".to_string()]
    );
    assert_eq!(
        unlines(&vec!["a".to_string(), "b".to_string()]),
        "a\nb\n"
    );
}

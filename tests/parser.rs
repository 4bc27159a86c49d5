use xeorvi::parser::{parse_user_input, ParseError};

fn words(v: &[&str]) -> Vec<String> {
    v.iter().map(|s| s.to_string()).collect()
}

#[test]
fn quoted_argument_keeps_its_space() {
    let req = parse_user_input("echo \"a b\" c").ok().unwrap();
    assert_eq!(req.program, "echo");
    assert_eq!(req.args, words(&["a b", "c"]));
}

#[test]
fn backslash_outside_quotes_is_literal() {
    let req = parse_user_input("echo a\\ b").ok().unwrap();
    assert_eq!(req.program, "echo");
    assert_eq!(req.args, words(&["a\\", "b"]));
}

#[test]
fn backslash_inside_quotes_escapes() {
    let req = parse_user_input("echo \"a\\\"b\" 'x\\'y'").ok().unwrap();
    assert_eq!(req.args, words(&["a\"b", "x'y"]));
}

#[test]
fn trailing_backslash_inside_quotes_stays() {
    let req = parse_user_input("echo \"ab\\").ok().unwrap();
    assert_eq!(req.args, words(&["ab\\"]));
}

#[test]
fn pipe_outside_quotes_is_refused() {
    match parse_user_input("ls | grep x") {
        Err(ParseError::Chaining(c)) => assert_eq!(c, '|'),
        _ => panic!("expected a chaining error"),
    }
}

#[test]
fn ampersand_anywhere_is_refused() {
    match parse_user_input("a&") {
        Err(ParseError::Chaining(c)) => assert_eq!(c, '&'),
        _ => panic!("expected a chaining error"),
    }
    match parse_user_input("echo \"x\" y&&z") {
        Err(ParseError::Chaining(c)) => assert_eq!(c, '&'),
        _ => panic!("expected a chaining error"),
    }
}

#[test]
fn operators_inside_quotes_are_text() {
    let req = parse_user_input("echo '&' \"|\"").ok().unwrap();
    assert_eq!(req.args, words(&["&", "|"]));
}

#[test]
fn empty_line_is_unrecognized() {
    match parse_user_input("") {
        Err(ParseError::Unrecognized(l)) => assert_eq!(l, ""),
        _ => panic!("expected an unrecognized-input error"),
    }
}

#[test]
fn blank_line_is_unrecognized() {
    match parse_user_input("    ") {
        Err(ParseError::Unrecognized(l)) => assert_eq!(l, "    "),
        _ => panic!("expected an unrecognized-input error"),
    }
}

#[test]
fn white_space_line_is_unrecognized() {
    match parse_user_input(" \t") {
        Err(ParseError::Unrecognized(l)) => assert_eq!(l, " \t"),
        _ => panic!("expected an unrecognized-input error"),
    }
    match parse_user_input("\t\t\u{3000}") {
        Err(ParseError::Unrecognized(l)) => assert_eq!(l, "\t\t\u{3000}"),
        _ => panic!("expected an unrecognized-input error"),
    }
}

#[test]
fn leading_spaces_do_not_name_the_program() {
    let req = parse_user_input("  ls -l").ok().unwrap();
    assert_eq!(req.program, "ls");
    assert_eq!(req.args, words(&["-l"]));
}

#[test]
fn doubled_space_gives_an_empty_argument() {
    let req = parse_user_input("cd  foo").ok().unwrap();
    assert_eq!(req.program, "cd");
    assert_eq!(req.args, words(&["", "foo"]));
}

#[test]
fn parse_error_messages() {
    assert_eq!(
        ParseError::Chaining('|').message(),
        "Chaining commands with `|` is not supported yet"
    );
    assert_eq!(
        ParseError::Unrecognized("  ".to_string()).message(),
        "Unknown syntax or command:   "
    );
}

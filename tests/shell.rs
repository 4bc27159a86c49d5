use xeorvi::parser::ParseError;
use xeorvi::shell::{builtin_of, decide, dispatch, echo_text, is_quit_word, Action, Builtin, WorkingDir};
use xeorvi::text::trim_text;
use xeorvi::parser::CommandRequest;

fn strs(v: &[&str]) -> Vec<String> {
    v.iter().map(|s| s.to_string()).collect()
}

#[test]
fn quit_words_in_any_case_and_spacing() {
    assert!(matches!(decide("exit"), Action::Quit));
    assert!(matches!(decide("  KYS "), Action::Quit));
    assert!(matches!(decide("Kindness"), Action::Quit));
    assert!(matches!(decide("q"), Action::Quit));
    assert!(matches!(decide("quite"), Action::Quit));
    assert!(!is_quit_word("quit"));
}

#[test]
fn empty_line_does_nothing() {
    assert!(matches!(decide(""), Action::Nothing));
}

#[test]
fn blank_line_is_reported() {
    assert!(matches!(decide("   "), Action::Report(ParseError::Unrecognized(_))));
    assert!(matches!(decide(" \t"), Action::Report(ParseError::Unrecognized(_))));
}

#[test]
fn change_directory() {
    match decide("CD /tmp") {
        Action::ChangeDir(t) => assert_eq!(t, "/tmp"),
        _ => panic!("expected a directory change"),
    }
    match decide("chdir ..") {
        Action::ChangeDir(t) => assert_eq!(t, ".."),
        _ => panic!("expected a directory change"),
    }
    assert!(matches!(decide("cd"), Action::PrintWorkingDir));
}

#[test]
fn echo_joins_arguments() {
    match decide("echo a  \"b c\"") {
        Action::Echo(s) => assert_eq!(s, "a  b c\n"),
        _ => panic!("expected echo"),
    }
    match decide("echo") {
        Action::Echo(s) => assert_eq!(s, "\n"),
        _ => panic!("expected echo"),
    }
    assert_eq!(echo_text(&strs(&["x", "y", "z"])), "x y z\n");
}

#[test]
fn clear_screen() {
    assert!(matches!(decide("cls"), Action::Clear));
    assert!(matches!(decide("CLEAR"), Action::Clear));
}

#[test]
fn external_program_is_spawned() {
    match decide("ls -l /tmp") {
        Action::Spawn(req) => {
            assert_eq!(req.program, "ls");
            assert_eq!(req.args, strs(&["-l", "/tmp"]));
        },
        _ => panic!("expected a child process"),
    }
}

#[test]
fn chaining_is_reported() {
    assert!(matches!(decide("ls | wc"), Action::Report(ParseError::Chaining('|'))));
}

#[test]
fn dispatch_takes_the_lowered_name() {
    let req = CommandRequest { program: "ECHO".to_string(), args: strs(&["hi"]) };
    match dispatch(req, "echo") {
        Action::Echo(s) => assert_eq!(s, "hi\n"),
        _ => panic!("expected echo"),
    }
    let req = CommandRequest { program: "ECHO".to_string(), args: strs(&["hi"]) };
    assert!(matches!(dispatch(req, "ECHO"), Action::Spawn(_)));
}

#[test]
fn builtin_names() {
    assert!(builtin_of("cd") == Some(Builtin::ChangeDir));
    assert!(builtin_of("chdir") == Some(Builtin::ChangeDir));
    assert!(builtin_of("echo") == Some(Builtin::Echo));
    assert!(builtin_of("cls") == Some(Builtin::Clear));
    assert!(builtin_of("clear") == Some(Builtin::Clear));
    assert!(builtin_of("Cd") == None);
}

#[test]
fn trimming() {
    assert_eq!(trim_text("  a b \t\n"), "a b");
    assert_eq!(trim_text("\u{3000}x\u{a0}"), "x");
    assert_eq!(trim_text("   "), "");
}

#[test]
fn working_directory_name() {
    let w = WorkingDir::from_path("/home/user".to_string()).unwrap();
    assert_eq!(w.name, "user");
    assert!(WorkingDir::from_path("/".to_string()).is_none());
    let mut w = w;
    assert!(w.enter("/srv/www".to_string()));
    assert_eq!((w.path.as_str(), w.name.as_str()), ("/srv/www", "www"));
    assert!(!w.enter("/".to_string()));
    assert_eq!((w.path.as_str(), w.name.as_str()), ("/", "www"));
}

use xeorvi::index::{
    build_index, dedup_by_name, display_name, has_allowed_extension, split_path_list, Candidate,
    Suggestion,
};

fn cand(path: &str, name: &str, exe: bool) -> Candidate {
    Candidate {
        path: path.to_string(),
        file_name: Some(name.to_string()),
        is_symlink: false,
        is_executable: exe,
    }
}

#[test]
fn earlier_directory_wins_on_equal_names() {
    let cands = vec![cand("/usr/local/bin/foo", "foo", true), cand("/usr/bin/foo", "foo", true)];
    let idx = build_index(&cands, false);
    assert_eq!(idx.len(), 1);
    assert_eq!(idx[0].path, "/usr/local/bin/foo");
    assert_eq!(idx[0].name, "foo");
}

#[test]
fn links_and_non_executables_are_skipped() {
    let mut link = cand("/bin/ll", "ll", true);
    link.is_symlink = true;
    let unnamed = Candidate { path: "/bin/x".to_string(), file_name: None, is_symlink: false, is_executable: true };
    let cands = vec![link, cand("/bin/notes", "notes", false), unnamed, cand("/bin/ls", "ls", true)];
    let idx = build_index(&cands, false);
    assert_eq!(idx.len(), 1);
    assert_eq!(idx[0].name, "ls");
}

#[test]
fn order_of_the_index_follows_the_candidates() {
    let cands = vec![cand("/a/zz", "zz", true), cand("/a/aa", "aa", true), cand("/b/zz", "zz", true)];
    let idx = build_index(&cands, false);
    let names: Vec<String> = idx.iter().map(|s| s.name.clone()).collect();
    assert_eq!(names, vec!["zz".to_string(), "aa".to_string()]);
}

#[test]
fn dedup_keeps_first_of_each_name() {
    let v = vec![
        Suggestion { path: "/1/a".to_string(), name: "a".to_string() },
        Suggestion { path: "/1/b".to_string(), name: "b".to_string() },
        Suggestion { path: "/2/a".to_string(), name: "a".to_string() },
    ];
    let d = dedup_by_name(v);
    assert_eq!(d.len(), 2);
    assert_eq!(d[0].path, "/1/a");
    assert_eq!(d[1].path, "/1/b");
}

#[test]
fn windows_names_lose_their_extension() {
    assert_eq!(display_name("git.exe", true), "git");
    assert_eq!(display_name("make.bat", true), "make");
    assert_eq!(display_name("odd.bat.exe", true), "odd");
    assert_eq!(display_name("git.exe", false), "git.exe");
    let cands = vec![cand("C:/bin/git.exe", "git.exe", true), cand("C:/bin/readme.txt", "readme.txt", true)];
    let idx = build_index(&cands, true);
    assert_eq!(idx.len(), 1);
    assert_eq!(idx[0].name, "git");
}

#[test]
fn allowed_extensions() {
    assert!(has_allowed_extension("tool"));
    assert!(has_allowed_extension("tool.exe"));
    assert!(has_allowed_extension("tool.bat"));
    assert!(has_allowed_extension(".profile"));
    assert!(!has_allowed_extension("tool.txt"));
    assert!(!has_allowed_extension("tool.EXE"));
    assert!(!has_allowed_extension("tool."));
}

#[test]
fn path_list_is_split_on_the_delimiter() {
    assert_eq!(
        split_path_list("/a:/b::/c", ':'),
        vec!["/a".to_string(), "/b".to_string(), "".to_string(), "/c".to_string()]
    );
    assert_eq!(split_path_list("/only", ':'), vec!["/only".to_string()]);
    assert_eq!(split_path_list("", ':'), vec!["".to_string()]);
}

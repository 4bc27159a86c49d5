use std::collections::{HashMap, HashSet};
use std::path::Path;

use xeorvi::resolve::{
    parse_path, resolve_symlink, LinkWalk, PathError, PathResolution, Query, Reply, MAX_LINK_HOPS,
};

struct MemFs {
    dirs: HashSet<String>,
    files: HashSet<String>,
    links: HashMap<String, String>,
    asked: Vec<String>,
}

impl MemFs {
    fn new() -> MemFs {
        MemFs { dirs: HashSet::new(), files: HashSet::new(), links: HashMap::new(), asked: Vec::new() }
    }

    fn dir(mut self, p: &str) -> MemFs {
        self.dirs.insert(p.to_string());
        self
    }

    fn file(mut self, p: &str) -> MemFs {
        self.files.insert(p.to_string());
        self
    }

    fn link(mut self, p: &str, t: &str) -> MemFs {
        self.links.insert(p.to_string(), t.to_string());
        self
    }

    fn answer(&mut self, q: Query) -> Reply {
        match q {
            Query::Exists(p) => {
                self.asked.push(p.clone());
                Reply::Flag(self.dirs.contains(&p) || self.files.contains(&p) || self.links.contains_key(&p))
            },
            Query::IsDir(p) => {
                self.asked.push(p.clone());
                Reply::Flag(self.dirs.contains(&p))
            },
            Query::IsSymlink(p) => {
                self.asked.push(p.clone());
                Reply::Flag(self.links.contains_key(&p))
            },
            Query::ReadLink(p) => {
                self.asked.push(p.clone());
                match self.links.get(&p) {
                    Some(t) => Reply::Target(t.clone()),
                    None => Reply::Unreadable("not a link".to_string()),
                }
            },
        }
    }

    fn resolve(&mut self, cwd: &str, target: &str) -> Result<String, PathError> {
        let mut r = parse_path(cwd, target);
        while let Some(q) = r.query() {
            let a = self.answer(q);
            r = r.resume(a);
        }
        match r {
            PathResolution::Done(out) => out,
            _ => panic!("the resolution stopped without a result"),
        }
    }

    fn walk(&mut self, path: &str) -> Result<(String, Vec<String>), PathError> {
        let mut w = resolve_symlink(path);
        while let Some(q) = w.query() {
            let a = self.answer(q);
            w = w.resume(a);
        }
        match w {
            LinkWalk::Done(out) => out,
            _ => panic!("the walk stopped without a result"),
        }
    }
}

fn joined(a: &str, b: &str) -> String {
    Path::new(a).join(b).to_string_lossy().into_owned()
}

#[test]
fn dot_dot_goes_to_the_parent() {
    let mut fs = MemFs::new().dir("/home").dir("/home/user");
    assert_eq!(fs.resolve("/home/user", "..").ok().unwrap(), "/home");
}

#[test]
fn dot_dot_at_the_root_fails() {
    let mut fs = MemFs::new().dir("/");
    match fs.resolve("/", "..") {
        Err(PathError::NoParent(p)) => assert_eq!(p, "/"),
        _ => panic!("expected a missing parent"),
    }
}

#[test]
fn relative_segments_are_walked() {
    let mut fs = MemFs::new().dir("/home").dir("/home/user").dir("/home/user/src").dir("/home/other");
    assert_eq!(fs.resolve("/home/user", "src").ok().unwrap(), joined("/home/user", "src"));
    assert_eq!(fs.resolve("/home/user", "./src/").ok().unwrap(), joined("/home/user", "src"));
    assert_eq!(fs.resolve("/home/user", "../other").ok().unwrap(), joined("/home", "other"));
    assert_eq!(fs.resolve("/home/user", "..\\other").ok().unwrap(), joined("/home", "other"));
}

#[test]
fn missing_segment_is_named_before_later_ones() {
    let mut fs = MemFs::new().dir("/home").dir("/home/user");
    match fs.resolve("/home/user", "missing/deeper/still") {
        Err(PathError::NotFound(p)) => assert_eq!(p, joined("/home/user", "missing")),
        _ => panic!("expected a missing segment"),
    }
    assert!(fs.asked.iter().all(|p| !p.contains("deeper")));
}

#[test]
fn missing_second_segment_is_named() {
    let mut fs = MemFs::new().dir("/home").dir("/home/user").dir("/home/user/a");
    match fs.resolve("/home/user", "a/b/c") {
        Err(PathError::NotFound(p)) => assert_eq!(p, joined(&joined("/home/user", "a"), "b")),
        _ => panic!("expected a missing segment"),
    }
}

#[test]
fn climbing_past_the_root_fails() {
    let mut fs = MemFs::new().dir("/");
    match fs.resolve("/", "../x") {
        Err(PathError::NoParent(p)) => assert_eq!(p, "/"),
        _ => panic!("expected a missing parent"),
    }
}

#[test]
fn a_file_is_no_directory() {
    let mut fs = MemFs::new().dir("/home").file("/home/notes");
    match fs.resolve("/home", "notes") {
        Err(PathError::NotADirectory(p)) => assert_eq!(p, "/home/notes"),
        _ => panic!("expected a non-directory"),
    }
}

#[test]
fn absolute_target_is_taken_as_it_stands() {
    let mut fs = MemFs::new().dir("/home").dir("/tmp");
    assert_eq!(fs.resolve("/home", "/tmp").ok().unwrap(), "/tmp");
    match fs.resolve("/home", "/nowhere") {
        Err(PathError::NotADirectory(p)) => assert_eq!(p, "/nowhere"),
        _ => panic!("expected a non-directory"),
    }
}

#[test]
fn chain_of_links_to_a_directory() {
    let mut fs = MemFs::new().link("/a", "/b").link("/b", "/c").dir("/c");
    let (end, chain) = fs.walk("/a").ok().unwrap();
    assert_eq!(end, "/c");
    assert_eq!(chain, vec!["/a".to_string(), "/b".to_string(), "/c".to_string()]);
    assert_eq!(fs.resolve("/", "/a").ok().unwrap(), "/c");
}

#[test]
fn chain_of_links_to_a_file() {
    let mut fs = MemFs::new().link("/a", "/b").link("/b", "/c").file("/c");
    match fs.resolve("/", "/a") {
        Err(PathError::ChainNotADirectory(chain)) => {
            assert_eq!(chain, vec!["/a".to_string(), "/b".to_string(), "/c".to_string()])
        },
        _ => panic!("expected a chain that ends in a file"),
    }
}

#[test]
fn relative_target_that_is_a_link() {
    let mut fs = MemFs::new().dir("/home").link("/home/l", "/srv").dir("/srv");
    assert_eq!(fs.resolve("/home", "l").ok().unwrap(), "/srv");
}

#[test]
fn link_cycle_is_reported() {
    let mut fs = MemFs::new().link("/a", "/b").link("/b", "/a");
    match fs.resolve("/", "/a") {
        Err(PathError::LinkCycle(chain)) => assert_eq!(chain.len() as u64, MAX_LINK_HOPS + 1),
        _ => panic!("expected a cycle"),
    }
}

#[test]
fn unreadable_link_is_reported() {
    let mut w = resolve_symlink("/a");
    w = w.resume(Reply::Flag(true));
    w = w.resume(Reply::Unreadable("denied".to_string()));
    match w {
        LinkWalk::Done(Err(PathError::LinkUnreadable(m))) => assert_eq!(m, "denied"),
        _ => panic!("expected an unreadable link"),
    }
}

#[test]
fn path_error_messages() {
    let chain = vec!["/a".to_string(), "/b".to_string(), "/c".to_string()];
    assert_eq!(
        PathError::ChainNotADirectory(chain).message(),
        "Can't CD onto non-directory path: /a -> /b -> /c\n"
    );
    assert_eq!(PathError::NotFound("/x/y".to_string()).message(), "Can't find directory /x/y\n");
    assert_eq!(
        PathError::NoParent("/".to_string()).message(),
        "Can't extract parent directory from /\n"
    );
}

#[test]
fn link_to_itself_is_a_cycle() {
    let mut fs = MemFs::new().link("/a", "/a");
    match fs.walk("/a") {
        Err(PathError::LinkCycle(chain)) => {
            assert_eq!(chain.len() as u64, MAX_LINK_HOPS + 1);
            assert!(chain.iter().all(|p| p == "/a"));
        },
        _ => panic!("expected a cycle"),
    }
}

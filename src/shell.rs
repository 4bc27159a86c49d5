use vstd::prelude::*;

use crate::parser::{parse_spec, parse_user_input, parsed_of, CommandRequest, ParseError, Parsed};
use crate::text::{strings_view, trim_text, trimmed};

verus! {

/// What `str::to_lowercase` gives for a text.
pub uninterp spec fn lower_of(s: Seq<char>) -> Seq<char>;

/// Relies on `str::to_lowercase`: the result depends on the text alone.
#[verifier::external_body]
fn to_lowercase(s: &str) -> (r: String)
    ensures
        r@ == lower_of(s@),
{
    s.to_lowercase()
}

/// What `std::path::Path::file_name` gives for a path.
pub uninterp spec fn file_name_of(p: Seq<char>) -> Option<Seq<char>>;

/// Relies on `std::path::Path::file_name`: the last component of the path,
/// which depends on the path alone.
#[verifier::external_body]
fn path_file_name(p: &str) -> (r: Option<String>)
    ensures
        match r {
            Some(n) => file_name_of(p@) == Some(n@),
            None => file_name_of(p@) is None,
        },
{
    match std::path::Path::new(p).file_name() {
        Some(n) => Some(n.to_string_lossy().into_owned()),
        None => None,
    }
}

/// The words that end the session.
pub open spec fn quit_word(w: Seq<char>) -> bool {
    w == seq!['k', 'y', 's'] || w == seq!['e', 'x', 'i', 't'] || w == seq!['q', 'u', 'i', 't', 'e']
        || w == seq!['q'] || w == seq!['k', 'i', 'n', 'd', 'n', 'e', 's', 's']
}

fn equals(a: &str, b: &str) -> (r: bool)
    ensures
        r == (a@ == b@),
{
    a.to_owned() == b.to_owned()
}

/// Whether the lower-case, trimmed line `word` ends the session.
pub fn is_quit_word(word: &str) -> (r: bool)
    ensures
        r == quit_word(word@),
{
    proof {
        reveal_strlit("kys");
        reveal_strlit("exit");
        reveal_strlit("quite");
        reveal_strlit("q");
        reveal_strlit("kindness");
        assert("kys"@ =~= seq!['k', 'y', 's']);
        assert("exit"@ =~= seq!['e', 'x', 'i', 't']);
        assert("quite"@ =~= seq!['q', 'u', 'i', 't', 'e']);
        assert("q"@ =~= seq!['q']);
        assert("kindness"@ =~= seq!['k', 'i', 'n', 'd', 'n', 'e', 's', 's']);
    }
    equals(word, "kys") || equals(word, "exit") || equals(word, "quite") || equals(word, "q")
        || equals(word, "kindness")
}

/// A command that the shell carries out itself.
#[derive(Clone, Copy, PartialEq, Eq, Structural)]
pub enum Builtin {
    ChangeDir,
    Echo,
    Clear,
}

/// The built-in command that a lower-case program name names.
pub open spec fn builtin_spec(name: Seq<char>) -> Option<Builtin> {
    if name == seq!['c', 'd'] || name == seq!['c', 'h', 'd', 'i', 'r'] {
        Some(Builtin::ChangeDir)
    } else if name == seq!['e', 'c', 'h', 'o'] {
        Some(Builtin::Echo)
    } else if name == seq!['c', 'l', 's'] || name == seq!['c', 'l', 'e', 'a', 'r'] {
        Some(Builtin::Clear)
    } else {
        None
    }
}

/// The built-in command that the lower-case program name `name` names.
pub fn builtin_of(name: &str) -> (r: Option<Builtin>)
    ensures
        r == builtin_spec(name@),
{
    proof {
        reveal_strlit("cd");
        reveal_strlit("chdir");
        reveal_strlit("echo");
        reveal_strlit("cls");
        reveal_strlit("clear");
        assert("cd"@ =~= seq!['c', 'd']);
        assert("chdir"@ =~= seq!['c', 'h', 'd', 'i', 'r']);
        assert("echo"@ =~= seq!['e', 'c', 'h', 'o']);
        assert("cls"@ =~= seq!['c', 'l', 's']);
        assert("clear"@ =~= seq!['c', 'l', 'e', 'a', 'r']);
    }
    if equals(name, "cd") || equals(name, "chdir") {
        Some(Builtin::ChangeDir)
    } else if equals(name, "echo") {
        Some(Builtin::Echo)
    } else if equals(name, "cls") || equals(name, "clear") {
        Some(Builtin::Clear)
    } else {
        None
    }
}

/// The words joined by single spaces.
pub open spec fn spaced(words: Seq<Seq<char>>) -> Seq<char>
    decreases words.len(),
{
    if words.len() == 0 {
        Seq::empty()
    } else if words.len() == 1 {
        words[0]
    } else {
        spaced(words.drop_last()) + seq![' '] + words.last()
    }
}

/// What `echo` prints: its arguments joined by single spaces, and a newline.
pub fn echo_text(args: &Vec<String>) -> (r: String)
    ensures
        r@ == spaced(strings_view(args@)) + seq!['\n'],
{
    let mut r = String::new();
    let n = args.len();
    let mut i: usize = 0;
    while i < n
        invariant
            n == args.len(),
            i <= n,
            r@ == spaced(strings_view(args@.take(i as int))),
        decreases n - i,
    {
        let ghost before = r@;
        assert(strings_view(args@.take(i + 1)).drop_last() =~= strings_view(args@.take(i as int)));
        if i > 0 {
            r.push(' ');
        }
        r.append(args[i].as_str());
        proof {
            let w = strings_view(args@.take(i + 1));
            if i == 0 {
                assert(w =~= seq![args@[0]@]);
                assert(r@ =~= w[0]);
            } else {
                assert(r@ =~= before + seq![' '] + w.last());
            }
        }
        i = i + 1;
    }
    assert(args@.take(n as int) =~= args@);
    r.push('\n');
    r
}

/// What the shell does with one submitted line.
pub enum Action {
    /// End the session.
    Quit,
    /// Nothing was typed.
    Nothing,
    /// The line could not be read as a command.
    Report(ParseError),
    /// Print the working directory.
    PrintWorkingDir,
    /// Change the working directory to the resolution of the target.
    ChangeDir(String),
    /// Print this text.
    Echo(String),
    /// Clear the screen.
    Clear,
    /// Run the program as a child process and wait for it.
    Spawn(CommandRequest),
}

/// What the shell does with the command `program args`, where `lowered` is
/// the program name in lower case.
pub open spec fn command_action(
    lowered: Seq<char>,
    program: Seq<char>,
    args: Seq<Seq<char>>,
    r: Action,
) -> bool {
    match builtin_spec(lowered) {
        Some(Builtin::ChangeDir) => if args.len() == 0 {
            r is PrintWorkingDir
        } else {
            r matches Action::ChangeDir(t) && t@ == args[0]
        },
        Some(Builtin::Echo) => r matches Action::Echo(s) && s@ == spaced(args) + seq!['\n'],
        Some(Builtin::Clear) => r is Clear,
        None => r matches Action::Spawn(req) && req@ == (program, args),
    }
}

/// Routes a parsed command, whose program name in lower case is `lowered`, to
/// a built-in command or to a child process.
pub fn dispatch(req: CommandRequest, lowered: &str) -> (r: Action)
    ensures
        command_action(lowered@, req.program@, strings_view(req.args@), r),
{
    match builtin_of(lowered) {
        Some(Builtin::ChangeDir) => {
            if req.args.len() == 0 {
                Action::PrintWorkingDir
            } else {
                Action::ChangeDir(req.args[0].clone())
            }
        },
        Some(Builtin::Echo) => Action::Echo(echo_text(&req.args)),
        Some(Builtin::Clear) => Action::Clear,
        None => Action::Spawn(req),
    }
}

/// What the shell does with the submitted line `line`: nothing for an empty
/// line; end the session for a quit word, in any case and with any white
/// space around it; otherwise the line is parsed, and what it names is
/// carried out, or the parse error reported.
pub fn decide(line: &str) -> (r: Action)
    ensures
        line@.len() == 0 ==> r is Nothing,
        line@.len() > 0 && quit_word(lower_of(trimmed(line@))) ==> r is Quit,
        line@.len() > 0 && !quit_word(lower_of(trimmed(line@))) ==> match parse_spec(line@) {
            Parsed::Command(p, args) => command_action(lower_of(p), p, args, r),
            other => r matches Action::Report(e) && parsed_of(Err(e)) == other,
        },
{
    if line.is_empty() {
        return Action::Nothing;
    }
    let t = trim_text(line);
    let w = to_lowercase(t.as_str());
    if is_quit_word(w.as_str()) {
        return Action::Quit;
    }
    match parse_user_input(line) {
        Err(e) => Action::Report(e),
        Ok(req) => {
            let lowered = to_lowercase(req.program.as_str());
            dispatch(req, lowered.as_str())
        },
    }
}

/// The working directory: its path, and the name shown in the prompt.
pub struct WorkingDir {
    pub path: String,
    pub name: String,
}

impl WorkingDir {
    /// The working directory at `path`; `None` where the path has no last
    /// component to show.
    pub fn from_path(path: String) -> (r: Option<WorkingDir>)
        ensures
            match r {
                Some(w) => w.path@ == path@ && file_name_of(path@) == Some(w.name@),
                None => file_name_of(path@) is None,
            },
    {
        match path_file_name(path.as_str()) {
            Some(name) => Some(WorkingDir { path, name }),
            None => None,
        }
    }

    /// Moves to `path`. The name shown follows, where the path has a last
    /// component; otherwise the old name stays and the result is false.
    pub fn enter(&mut self, path: String) -> (named: bool)
        ensures
            final(self).path@ == path@,
            named == (file_name_of(path@) is Some),
            match file_name_of(path@) {
                Some(n) => final(self).name@ == n,
                None => final(self).name@ == old(self).name@,
            },
    {
        let found = path_file_name(path.as_str());
        self.path = path;
        match found {
            Some(name) => {
                self.name = name;
                true
            },
            None => false,
        }
    }
}

} // verus!

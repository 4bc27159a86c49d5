use vstd::prelude::*;

use crate::text::{blank_text, is_blank, is_white_space, strings_view};

verus! {

broadcast use vstd::string::group_string_axioms;

/// A program name and its arguments, as read from one command line.
pub struct CommandRequest {
    pub program: String,
    pub args: Vec<String>,
}

/// Why a command line could not be read as a command.
pub enum ParseError {
    /// A command-chaining operator (`&` or `|`) stood outside quotes.
    Chaining(char),
    /// The line named no program; the line is kept for the report.
    Unrecognized(String),
}

/// What a command line reads as, in mathematical terms.
pub enum Parsed {
    Command(Seq<char>, Seq<Seq<char>>),
    Chaining(char),
    Unrecognized(Seq<char>),
}

/// The tokenizer's state after a prefix of the line.
pub struct Scan {
    /// The token being read.
    pub token: Seq<char>,
    /// The quote character that opened the current quoted run, if inside one.
    pub quote: Option<char>,
    /// Whether the previous character was a backslash inside quotes.
    pub escaped: bool,
    /// The program name, once the first token has been completed.
    pub program: Option<Seq<char>>,
    /// The arguments completed so far.
    pub args: Seq<Seq<char>>,
    /// The chaining operator met outside quotes, if any.
    pub rejected: Option<char>,
}

pub open spec fn scan_start() -> Scan {
    Scan {
        token: Seq::empty(),
        quote: None,
        escaped: false,
        program: None,
        args: Seq::empty(),
        rejected: None,
    }
}

/// Completing a token: the first non-empty one names the program, every later
/// one is an argument.
pub open spec fn flush(s: Scan) -> Scan {
    match s.program {
        None => if s.token.len() == 0 {
            s
        } else {
            Scan { token: Seq::empty(), program: Some(s.token), ..s }
        },
        Some(_) => Scan { token: Seq::empty(), args: s.args.push(s.token), ..s },
    }
}

pub open spec fn is_chaining(c: char) -> bool {
    c == '&' || c == '|'
}

pub open spec fn is_quote(c: char) -> bool {
    c == '"' || c == '\''
}

/// One character of input read in state `s`.
pub open spec fn scan_char(s: Scan, c: char) -> Scan {
    if s.rejected is Some {
        s
    } else if s.quote is Some {
        if s.escaped {
            Scan { token: s.token.push(c), escaped: false, ..s }
        } else if c == s.quote->0 {
            Scan { quote: None, ..s }
        } else if c == '\\' {
            Scan { escaped: true, ..s }
        } else {
            Scan { token: s.token.push(c), ..s }
        }
    } else if is_chaining(c) {
        Scan { rejected: Some(c), ..s }
    } else if is_quote(c) {
        Scan { quote: Some(c), ..s }
    } else if c == ' ' {
        flush(s)
    } else {
        Scan { token: s.token.push(c), ..s }
    }
}

/// The state after reading all of `line`.
pub open spec fn scan(line: Seq<char>) -> Scan
    decreases line.len(),
{
    if line.len() == 0 {
        scan_start()
    } else {
        scan_char(scan(line.drop_last()), line.last())
    }
}

/// The end of input: a dangling backslash stands for itself, and a non-empty
/// last token is completed as a space would complete it.
pub open spec fn scan_end(s: Scan) -> Scan {
    let token = if s.escaped {
        s.token.push('\\')
    } else {
        s.token
    };
    if token.len() > 0 {
        flush(Scan { token, escaped: false, ..s })
    } else {
        Scan { token, escaped: false, ..s }
    }
}

/// What `line` reads as: a line of white space alone names no program.
pub open spec fn parse_spec(line: Seq<char>) -> Parsed {
    let s = scan(line);
    if is_blank(line) {
        Parsed::Unrecognized(line)
    } else if s.rejected is Some {
        Parsed::Chaining(s.rejected->0)
    } else {
        let e = scan_end(s);
        match e.program {
            None => Parsed::Unrecognized(line),
            Some(p) => Parsed::Command(p, e.args),
        }
    }
}

impl CommandRequest {
    pub open spec fn view(&self) -> (Seq<char>, Seq<Seq<char>>) {
        (self.program@, strings_view(self.args@))
    }
}

/// The mathematical reading of a parse result.
pub open spec fn parsed_of(r: Result<CommandRequest, ParseError>) -> Parsed {
    match r {
        Ok(req) => Parsed::Command(req.program@, strings_view(req.args@)),
        Err(ParseError::Chaining(c)) => Parsed::Chaining(c),
        Err(ParseError::Unrecognized(l)) => Parsed::Unrecognized(l@),
    }
}

proof fn lemma_strings_view_push(v: Seq<String>, a: String)
    ensures
        strings_view(v.push(a)) == strings_view(v).push(a@),
{
    assert(strings_view(v.push(a)) =~= strings_view(v).push(a@));
}

/// The report of a parse failure, for the user.
pub open spec fn error_message(e: ParseError) -> Seq<char> {
    match e {
        ParseError::Chaining(c) => "Chaining commands with `"@ + seq![c] + "` is not supported yet"@,
        ParseError::Unrecognized(l) => "Unknown syntax or command: "@ + l@,
    }
}

impl ParseError {
    /// The report of this failure, for the user.
    pub fn message(&self) -> (r: String)
        ensures
            r@ == error_message(*self),
    {
        match self {
            ParseError::Chaining(c) => {
                let mut r = "Chaining commands with `".to_owned();
                r.push(*c);
                r.append("` is not supported yet");
                r
            },
            ParseError::Unrecognized(l) => {
                let mut r = "Unknown syntax or command: ".to_owned();
                r.append(l.as_str());
                r
            },
        }
    }
}

/// Once a chaining operator has been met, the rest of the line changes nothing.
proof fn lemma_rejection_kept(line: Seq<char>, k: int)
    requires
        0 <= k <= line.len(),
        scan(line.take(k)).rejected is Some,
    ensures
        scan(line) == scan(line.take(k)),
    decreases line.len(),
{
    if line.len() == k {
        assert(line.take(k) == line);
    } else {
        assert(line.drop_last().take(k) == line.take(k));
        lemma_rejection_kept(line.drop_last(), k);
    }
}

/// Reads one command line as a program name and its arguments.
///
/// Characters inside a pair of `"` or `'` quotes are taken literally, where a
/// backslash takes the next character literally too. Outside quotes a space
/// ends a token, and `&` or `|` is refused, since commands cannot be chained.
/// A line that is empty or holds only white space names no program.
pub fn parse_user_input(line: &str) -> (r: Result<CommandRequest, ParseError>)
    ensures
        parsed_of(r) == parse_spec(line@),
{
    if blank_text(line) {
        return Err(ParseError::Unrecognized(line.to_owned()));
    }
    let mut token = String::new();
    let mut quote: Option<char> = None;
    let mut escaped = false;
    let mut program: Option<String> = None;
    let mut args: Vec<String> = Vec::new();
    for c in it: line.chars()
        invariant
            it.seq() == line@,
            ({
                let s = scan(line@.take(it.index() as int));
                &&& s.rejected is None
                &&& s.token == token@
                &&& s.quote == quote
                &&& s.escaped == escaped
                &&& s.program == match program { Some(p) => Some(p@), None => None::<Seq<char>> }
                &&& s.args == strings_view(args@)
            }),
    {
        proof {
            assert(line@.take(it.index() + 1).drop_last() == line@.take(it.index() as int));
        }
        if quote.is_some() {
            if escaped {
                token.push(c);
                escaped = false;
            } else if Some(c) == quote {
                quote = None;
            } else if c == '\\' {
                escaped = true;
            } else {
                token.push(c);
            }
        } else if c == '&' || c == '|' {
            proof {
                lemma_rejection_kept(line@, it.index() + 1);
            }
            return Err(ParseError::Chaining(c));
        } else if c == '"' || c == '\'' {
            quote = Some(c);
        } else if c == ' ' {
            match program {
                None => {
                    if !token.as_str().is_empty() {
                        program = Some(token);
                        token = String::new();
                    }
                },
                Some(_) => {
                    args.push(token);
                    token = String::new();
                },
            }
        } else {
            token.push(c);
        }
    }
    assert(line@.take(line@.len() as int) == line@);
    if escaped {
        token.push('\\');
    }
    if !token.as_str().is_empty() {
        match program {
            None => {
                program = Some(token);
            },
            Some(_) => {
                proof {
                    lemma_strings_view_push(args@, token);
                }
                args.push(token);
            },
        }
    }
    match program {
        None => Err(ParseError::Unrecognized(line.to_owned())),
        Some(program) => Ok(CommandRequest { program, args }),
    }
}

/// A chaining operator outside quotes makes the whole line fail with a
/// chaining error, wherever it stands and whatever follows it.
pub proof fn lemma_chaining_refused(line: Seq<char>, i: int)
    requires
        0 <= i < line.len(),
        is_chaining(line[i]),
        scan(line.take(i)).quote is None,
    ensures
        parse_spec(line) is Chaining,
{
    assert(line.take(i + 1).drop_last() == line.take(i));
    lemma_rejection_kept(line, i + 1);
}

/// A line that is empty or holds only white space names no program.
pub proof fn lemma_blank_line_unrecognized(line: Seq<char>)
    requires
        forall|i: int| 0 <= i < line.len() ==> is_white_space(line[i]),
    ensures
        parse_spec(line) == Parsed::Unrecognized(line),
{
}

} // verus!

use vstd::prelude::*;

use crate::text::strings_view;

verus! {

/// The most links followed in one resolution before it is called a cycle.
pub const MAX_LINK_HOPS: u64 = 40;

/// What the resolver needs to know of the filesystem, in mathematical terms.
pub struct FsModel {
    pub exists: spec_fn(Seq<char>) -> bool,
    pub is_dir: spec_fn(Seq<char>) -> bool,
    pub is_symlink: spec_fn(Seq<char>) -> bool,
    /// The target of a link, or the reason it could not be read.
    pub read_link: spec_fn(Seq<char>) -> Result<Seq<char>, Seq<char>>,
}

/// A question put to the filesystem.
pub enum Query {
    Exists(String),
    IsDir(String),
    IsSymlink(String),
    ReadLink(String),
}

/// The filesystem's answer to a `Query`.
pub enum Reply {
    /// The answer to `Exists`, `IsDir` or `IsSymlink`.
    Flag(bool),
    /// The target that `ReadLink` found.
    Target(String),
    /// Why `ReadLink` failed.
    Unreadable(String),
}

/// Two questions ask the same thing of the same path.
pub open spec fn same_query(a: Query, b: Query) -> bool {
    match (a, b) {
        (Query::Exists(x), Query::Exists(y)) => x@ == y@,
        (Query::IsDir(x), Query::IsDir(y)) => x@ == y@,
        (Query::IsSymlink(x), Query::IsSymlink(y)) => x@ == y@,
        (Query::ReadLink(x), Query::ReadLink(y)) => x@ == y@,
        _ => false,
    }
}

/// `q` is the question pending, or `None` where none is.
pub open spec fn asks(q: Option<Query>, pending: Option<Query>) -> bool {
    match (q, pending) {
        (None, None) => true,
        (Some(a), Some(b)) => same_query(a, b),
        _ => false,
    }
}

impl FsModel {
    /// `r` is what this filesystem answers to `q`.
    pub open spec fn answers(self, q: Query, r: Reply) -> bool {
        match q {
            Query::Exists(p) => r == Reply::Flag((self.exists)(p@)),
            Query::IsDir(p) => r == Reply::Flag((self.is_dir)(p@)),
            Query::IsSymlink(p) => r == Reply::Flag((self.is_symlink)(p@)),
            Query::ReadLink(p) => match (self.read_link)(p@) {
                Ok(t) => r matches Reply::Target(x) && x@ == t,
                Err(m) => r matches Reply::Unreadable(x) && x@ == m,
            },
        }
    }
}

/// Why a directory change target could not be resolved.
pub enum PathError {
    /// The path has no parent directory.
    NoParent(String),
    /// The path, built up to its first missing segment, does not exist.
    NotFound(String),
    /// The path exists but is not a directory.
    NotADirectory(String),
    /// A chain of links ends in something that is not a directory.
    ChainNotADirectory(Vec<String>),
    /// The target of a link could not be read, for the reason given.
    LinkUnreadable(String),
    /// The chain of links grew past `MAX_LINK_HOPS`.
    LinkCycle(Vec<String>),
}

/// `PathError` in mathematical terms.
pub enum PathFault {
    NoParent(Seq<char>),
    NotFound(Seq<char>),
    NotADirectory(Seq<char>),
    ChainNotADirectory(Seq<Seq<char>>),
    LinkUnreadable(Seq<char>),
    LinkCycle(Seq<Seq<char>>),
}

impl PathError {
    pub open spec fn view(&self) -> PathFault {
        match self {
            PathError::NoParent(p) => PathFault::NoParent(p@),
            PathError::NotFound(p) => PathFault::NotFound(p@),
            PathError::NotADirectory(p) => PathFault::NotADirectory(p@),
            PathError::ChainNotADirectory(c) => PathFault::ChainNotADirectory(strings_view(c@)),
            PathError::LinkUnreadable(m) => PathFault::LinkUnreadable(m@),
            PathError::LinkCycle(c) => PathFault::LinkCycle(strings_view(c@)),
        }
    }
}

/// What `std::path::Path::parent` gives for a path.
pub uninterp spec fn parent_of(p: Seq<char>) -> Option<Seq<char>>;

/// What `std::path::Path::join` gives for a base path and a relative segment.
pub uninterp spec fn joined(base: Seq<char>, seg: Seq<char>) -> Seq<char>;

/// Relies on `std::path::Path::parent`: the parent depends on the path alone,
/// and a path that ends in a root, or is empty, has none.
#[verifier::external_body]
fn path_parent(p: &str) -> (r: Option<String>)
    ensures
        match r {
            Some(q) => parent_of(p@) == Some(q@),
            None => parent_of(p@) is None,
        },
        p@ == seq!['/'] || p@.len() == 0 ==> r is None,
{
    match std::path::Path::new(p).parent() {
        Some(q) => Some(q.to_string_lossy().into_owned()),
        None => None,
    }
}

/// Relies on `std::path::Path::join`: the joined path depends on the two
/// paths alone.
#[verifier::external_body]
fn path_join(base: &str, seg: &str) -> (r: String)
    ensures
        r@ == joined(base@, seg@),
{
    std::path::Path::new(base).join(seg).to_string_lossy().into_owned()
}

/// Following links from `current`, with `chain` the paths visited so far and
/// at most `fuel` more links to read: the final path and the whole chain.
pub open spec fn follow(fs: FsModel, current: Seq<char>, chain: Seq<Seq<char>>, fuel: nat) -> Result<
    (Seq<char>, Seq<Seq<char>>),
    PathFault,
>
    decreases fuel,
{
    if !(fs.is_symlink)(current) {
        Ok((current, chain))
    } else if fuel == 0 {
        Err(PathFault::LinkCycle(chain))
    } else {
        match (fs.read_link)(current) {
            Err(m) => Err(PathFault::LinkUnreadable(m)),
            Ok(t) => follow(fs, t, chain.push(t), (fuel - 1) as nat),
        }
    }
}

/// The chain of links that starts at `path`.
pub open spec fn symlink_chain(fs: FsModel, path: Seq<char>) -> Result<
    (Seq<char>, Seq<Seq<char>>),
    PathFault,
> {
    follow(fs, path, seq![path], MAX_LINK_HOPS as nat)
}

/// A walk along symbolic links, one filesystem question at a time.
pub enum LinkWalk {
    /// Waiting to learn whether `current` is a link.
    AskIsLink { current: String, chain: Vec<String>, hops_left: u64 },
    /// `current` is a link: waiting for its target.
    AskTarget { current: String, chain: Vec<String>, hops_left: u64 },
    /// The final path and the chain of paths visited, or why the walk failed.
    Done(Result<(String, Vec<String>), PathError>),
}

pub open spec fn walk_result_view(r: Result<(String, Vec<String>), PathError>) -> Result<
    (Seq<char>, Seq<Seq<char>>),
    PathFault,
> {
    match r {
        Ok((p, c)) => Ok((p@, strings_view(c@))),
        Err(e) => Err(e@),
    }
}

impl LinkWalk {
    /// Where the walk ends on filesystem `fs`.
    pub open spec fn outcome(&self, fs: FsModel) -> Result<(Seq<char>, Seq<Seq<char>>), PathFault> {
        match self {
            LinkWalk::AskIsLink { current, chain, hops_left } => follow(
                fs,
                current@,
                strings_view(chain@),
                *hops_left as nat,
            ),
            LinkWalk::AskTarget { current, chain, hops_left } => if *hops_left == 0 {
                Err(PathFault::LinkCycle(strings_view(chain@)))
            } else {
                match (fs.read_link)(current@) {
                    Err(m) => Err(PathFault::LinkUnreadable(m)),
                    Ok(t) => follow(fs, t, strings_view(chain@).push(t), (*hops_left - 1) as nat),
                }
            },
            LinkWalk::Done(r) => walk_result_view(*r),
        }
    }

    /// The question the walk waits on, if any.
    /// A measure that every answered question lowers.
    pub open spec fn rank(&self) -> nat {
        match self {
            LinkWalk::AskIsLink { hops_left, .. } => 2 * (*hops_left as nat) + 2,
            LinkWalk::AskTarget { hops_left, .. } => 2 * (*hops_left as nat) + 1,
            LinkWalk::Done(_) => 0,
        }
    }

    pub open spec fn pending(&self) -> Option<Query> {
        match self {
            LinkWalk::AskIsLink { current, .. } => Some(Query::IsSymlink(*current)),
            LinkWalk::AskTarget { current, .. } => Some(Query::ReadLink(*current)),
            LinkWalk::Done(_) => None,
        }
    }

    /// The question the walk waits on; `None` once it is done.
    pub fn query(&self) -> (q: Option<Query>)
        ensures
            asks(q, self.pending()),
    {
        match self {
            LinkWalk::AskIsLink { current, .. } => Some(Query::IsSymlink(current.clone())),
            LinkWalk::AskTarget { current, .. } => Some(Query::ReadLink(current.clone())),
            LinkWalk::Done(_) => None,
        }
    }

    /// Takes the filesystem's answer to the pending question. On every
    /// filesystem that gives that answer the walk ends where it would have.
    pub fn resume(self, reply: Reply) -> (w: LinkWalk)
        ensures
            self.pending() is None ==> w == self,
            self.pending() is Some ==> w.rank() < self.rank(),
            forall|fs: FsModel|
                #[trigger] fs.answers(self.pending()->0, reply) && self.pending() is Some
                    ==> w.outcome(fs) == self.outcome(fs),
    {
        match self {
            LinkWalk::AskIsLink { current, chain, hops_left } => {
                match reply {
                    Reply::Flag(false) => LinkWalk::Done(Ok((current, chain))),
                    _ => {
                        if hops_left == 0 {
                            LinkWalk::Done(Err(PathError::LinkCycle(chain)))
                        } else {
                            LinkWalk::AskTarget { current, chain, hops_left }
                        }
                    },
                }
            },
            LinkWalk::AskTarget { current, chain, hops_left } => {
                if hops_left == 0 {
                    return LinkWalk::Done(Err(PathError::LinkCycle(chain)));
                }
                match reply {
                    Reply::Target(t) => {
                        let mut chain = chain;
                        let ghost before = chain@;
                        chain.push(t.clone());
                        proof {
                            assert(strings_view(chain@) =~= strings_view(before).push(t@));
                        }
                        LinkWalk::AskIsLink { current: t, chain, hops_left: hops_left - 1 }
                    },
                    Reply::Unreadable(m) => LinkWalk::Done(Err(PathError::LinkUnreadable(m))),
                    Reply::Flag(_) => LinkWalk::Done(Err(PathError::LinkUnreadable(String::new()))),
                }
            },
            LinkWalk::Done(r) => LinkWalk::Done(r),
        }
    }
}

/// Starts following the chain of symbolic links that begins at `path`.
pub fn resolve_symlink(path: &str) -> (w: LinkWalk)
    ensures
        w is AskIsLink,
        w.rank() == 2 * (MAX_LINK_HOPS as nat) + 2,
        forall|fs: FsModel| #[trigger] w.outcome(fs) == symlink_chain(fs, path@),
{
    let mut chain: Vec<String> = Vec::new();
    chain.push(path.to_owned());
    proof {
        assert(strings_view(chain@) =~= seq![path@]);
    }
    LinkWalk::AskIsLink { current: path.to_owned(), chain, hops_left: MAX_LINK_HOPS }
}

/// The length of the first segment of `s`: the characters before its first `/`.
pub open spec fn seg_len(s: Seq<char>) -> nat
    decreases s.len(),
{
    if s.len() == 0 || s[0] == '/' {
        0
    } else {
        1 + seg_len(s.drop_first())
    }
}

pub open spec fn starts_with_dot_slash(s: Seq<char>) -> bool {
    s.len() >= 2 && s[0] == '.' && s[1] == '/'
}

pub open spec fn starts_with_dot_dot_slash(s: Seq<char>) -> bool {
    s.len() >= 3 && s[0] == '.' && s[1] == '.' && s[2] == '/'
}

/// Consuming the relative target `rest` from `current`, one segment at a time.
/// A `./` prefix is skipped, a `../` prefix climbs to the parent, and any other
/// segment is entered only after the path it leads to is found to exist.
pub open spec fn walk(fs: FsModel, current: Seq<char>, rest: Seq<char>) -> Result<
    Seq<char>,
    PathFault,
>
    decreases rest.len(),
{
    if rest.len() == 0 {
        Ok(current)
    } else if starts_with_dot_slash(rest) {
        walk(fs, current, rest.skip(2))
    } else if starts_with_dot_dot_slash(rest) {
        match parent_of(current) {
            None => Err(PathFault::NoParent(current)),
            Some(p) => walk(fs, p, rest.skip(3)),
        }
    } else {
        let k = seg_len(rest);
        let candidate = joined(current, rest.take(k as int));
        if !(fs.exists)(candidate) {
            Err(PathFault::NotFound(candidate))
        } else if k < rest.len() {
            walk(fs, candidate, rest.skip(k + 1 as int))
        } else {
            Ok(candidate)
        }
    }
}

/// The directory that a chain of links leads to.
pub open spec fn chain_dir(fs: FsModel, r: Result<(Seq<char>, Seq<Seq<char>>), PathFault>) -> Result<
    Seq<char>,
    PathFault,
> {
    match r {
        Err(e) => Err(e),
        Ok((t, chain)) => if (fs.is_dir)(t) {
            Ok(t)
        } else {
            Err(PathFault::ChainNotADirectory(chain))
        },
    }
}

/// The directory that path `p` names: a link is followed to its end, and what
/// is reached must be a directory.
pub open spec fn settle(fs: FsModel, p: Seq<char>) -> Result<Seq<char>, PathFault> {
    if (fs.is_symlink)(p) {
        chain_dir(fs, symlink_chain(fs, p))
    } else if (fs.is_dir)(p) {
        Ok(p)
    } else {
        Err(PathFault::NotADirectory(p))
    }
}

pub open spec fn then_settle(fs: FsModel, r: Result<Seq<char>, PathFault>) -> Result<
    Seq<char>,
    PathFault,
> {
    match r {
        Ok(p) => settle(fs, p),
        Err(e) => Err(e),
    }
}

/// Backslashes read as forward slashes.
pub open spec fn normalized(t: Seq<char>) -> Seq<char> {
    t.map_values(|c: char| if c == '\\' { '/' } else { c })
}

/// The directory that `target` names from working directory `cwd`.
pub open spec fn resolve_spec(fs: FsModel, cwd: Seq<char>, target: Seq<char>) -> Result<
    Seq<char>,
    PathFault,
> {
    let t = normalized(target);
    if t.len() > 0 && t[0] == '/' {
        settle(fs, t)
    } else if t == seq!['.', '.'] {
        match parent_of(cwd) {
            Some(p) => Ok(p),
            None => Err(PathFault::NoParent(cwd)),
        }
    } else {
        then_settle(fs, walk(fs, cwd, t))
    }
}

pub open spec fn result_view(r: Result<String, PathError>) -> Result<Seq<char>, PathFault> {
    match r {
        Ok(p) => Ok(p@),
        Err(e) => Err(e@),
    }
}

/// The resolution of a directory change target, one filesystem question at a
/// time.
pub enum PathResolution {
    /// Waiting to learn whether `candidate` exists; `chars[pos..]` is still to
    /// be walked from there.
    AskExists { candidate: String, chars: Vec<char>, pos: usize },
    /// The walk has reached `path`: waiting to learn whether it is a link.
    AskIsLink { path: String },
    /// `path` is no link: waiting to learn whether it is a directory.
    AskIsDir { path: String },
    /// Following the chain of links that the walk reached.
    Following { walk: LinkWalk },
    /// The chain ended at `target`: waiting to learn whether it is a directory.
    AskChainDir { target: String, chain: Vec<String> },
    /// The directory reached, or why there is none.
    Done(Result<String, PathError>),
}

impl PathResolution {
    /// Where the resolution ends on filesystem `fs`.
    pub open spec fn outcome(&self, fs: FsModel) -> Result<Seq<char>, PathFault> {
        match self {
            PathResolution::AskExists { candidate, chars, pos } => if !(fs.exists)(candidate@) {
                Err(PathFault::NotFound(candidate@))
            } else {
                then_settle(fs, walk(fs, candidate@, chars@.skip(*pos as int)))
            },
            PathResolution::AskIsLink { path } => settle(fs, path@),
            PathResolution::AskIsDir { path } => if (fs.is_dir)(path@) {
                Ok(path@)
            } else {
                Err(PathFault::NotADirectory(path@))
            },
            PathResolution::Following { walk } => chain_dir(fs, walk.outcome(fs)),
            PathResolution::AskChainDir { target, chain } => if (fs.is_dir)(target@) {
                Ok(target@)
            } else {
                Err(PathFault::ChainNotADirectory(strings_view(chain@)))
            },
            PathResolution::Done(r) => result_view(*r),
        }
    }

    /// The resolution is in a state that its own steps reach.
    /// A measure that every answered question lowers: what is left to walk,
    /// then the steps that check the end of the walk and follow its links.
    pub open spec fn rank(&self) -> nat {
        match self {
            PathResolution::AskExists { chars, pos, .. } => 2 * (MAX_LINK_HOPS as nat) + 5 + if *pos
                <= chars.len() {
                (chars.len() - *pos) as nat
            } else {
                0
            },
            PathResolution::AskIsLink { .. } => 2 * (MAX_LINK_HOPS as nat) + 4,
            PathResolution::AskIsDir { .. } => 1,
            PathResolution::Following { walk } => 1 + walk.rank(),
            PathResolution::AskChainDir { .. } => 1,
            PathResolution::Done(_) => 0,
        }
    }

    pub open spec fn wf(&self) -> bool {
        match self {
            PathResolution::AskExists { chars, pos, .. } => *pos <= chars.len(),
            PathResolution::Following { walk } => !(walk is Done),
            _ => true,
        }
    }

    /// The question the resolution waits on, if any.
    pub open spec fn pending(&self) -> Option<Query> {
        match self {
            PathResolution::AskExists { candidate, .. } => Some(Query::Exists(*candidate)),
            PathResolution::AskIsLink { path } => Some(Query::IsSymlink(*path)),
            PathResolution::AskIsDir { path } => Some(Query::IsDir(*path)),
            PathResolution::Following { walk } => walk.pending(),
            PathResolution::AskChainDir { target, .. } => Some(Query::IsDir(*target)),
            PathResolution::Done(_) => None,
        }
    }
}

proof fn lemma_seg_len(s: Seq<char>, k: int)
    requires
        0 <= k <= s.len(),
        forall|j: int| 0 <= j < k ==> s[j] != '/',
        k == s.len() || s[k] == '/',
    ensures
        seg_len(s) == k,
    decreases k,
{
    if k > 0 {
        lemma_seg_len(s.drop_first(), k - 1);
    }
}

/// Walks `chars[pos..]` from `current` up to the next question.
fn advance_walk(from: String, chars: Vec<char>, at: usize) -> (r: PathResolution)
    requires
        at <= chars.len(),
    ensures
        r.wf(),
        r.rank() < 2 * (MAX_LINK_HOPS as nat) + 5 + (chars.len() - at),
        forall|fs: FsModel| #[trigger] r.outcome(fs) == then_settle(fs, walk(fs, from@, chars@.skip(at as int))),
{
    let ghost start = from@;
    let ghost pos0 = at;
    let mut current = from;
    let mut pos = at;
    let n = chars.len();
    while pos < n
        invariant
            n == chars.len(),
            start == from@,
            pos0 == at,
            pos0 <= pos <= n,
            forall|fs: FsModel| #[trigger] then_settle(fs, walk(fs, current@, chars@.skip(pos as int)))
                == then_settle(fs, walk(fs, start, chars@.skip(pos0 as int))),
        decreases n - pos,
    {
        let ghost rest = chars@.skip(pos as int);
        if n - pos >= 2 && chars[pos] == '.' && chars[pos + 1] == '/' {
            assert(rest.skip(2) =~= chars@.skip(pos + 2));
            assert forall|fs: FsModel| #[trigger] then_settle(fs, walk(fs, current@, chars@.skip(pos + 2)))
                == then_settle(fs, walk(fs, start, chars@.skip(pos0 as int))) by {
                assert(walk(fs, current@, rest) == walk(fs, current@, chars@.skip(pos + 2)));
                assert(then_settle(fs, walk(fs, current@, rest))
                    == then_settle(fs, walk(fs, start, chars@.skip(pos0 as int))));
            }
            pos = pos + 2;
        } else if n - pos >= 3 && chars[pos] == '.' && chars[pos + 1] == '.' && chars[pos + 2] == '/' {
            assert(rest.skip(3) =~= chars@.skip(pos + 3));
            match path_parent(current.as_str()) {
                None => {
                    let r = PathResolution::Done(Err(PathError::NoParent(current)));
                    assert forall|fs: FsModel| #[trigger] r.outcome(fs) == then_settle(fs, walk(fs, start, chars@.skip(pos0 as int))) by {
                        assert(walk(fs, current@, rest) == Err::<Seq<char>, PathFault>(PathFault::NoParent(current@)));
                        assert(then_settle(fs, walk(fs, current@, chars@.skip(pos as int)))
                            == then_settle(fs, walk(fs, start, chars@.skip(pos0 as int))));
                    }
                    return r;
                },
                Some(p) => {
                    assert forall|fs: FsModel| #[trigger] then_settle(fs, walk(fs, p@, chars@.skip(pos + 3)))
                        == then_settle(fs, walk(fs, start, chars@.skip(pos0 as int))) by {
                        assert(walk(fs, current@, rest) == walk(fs, p@, chars@.skip(pos + 3)));
                        assert(then_settle(fs, walk(fs, current@, rest))
                            == then_settle(fs, walk(fs, start, chars@.skip(pos0 as int))));
                    }
                    current = p;
                    pos = pos + 3;
                },
            }
        } else {
            let mut seg = String::new();
            let mut k = pos;
            while k < n && chars[k] != '/'
                invariant
                    n == chars.len(),
                    pos <= k <= n,
                    seg@ == chars@.subrange(pos as int, k as int),
                    forall|j: int| pos <= j < k ==> chars@[j] != '/',
                decreases n - k,
            {
                seg.push(chars[k]);
                k = k + 1;
            }
            proof {
                lemma_seg_len(rest, k - pos);
                assert(rest.take(k - pos) =~= chars@.subrange(pos as int, k as int));
            }
            let candidate = path_join(current.as_str(), seg.as_str());
            let next = if k < n {
                k + 1
            } else {
                k
            };
            proof {
                if k < n {
                    assert(rest.skip(k - pos + 1) =~= chars@.skip(k + 1));
                } else {
                    assert(chars@.skip(k as int) =~= Seq::<char>::empty());
                }
            }
            let r = PathResolution::AskExists { candidate, chars, pos: next };
            assert(!starts_with_dot_slash(rest) && !starts_with_dot_dot_slash(rest));
            assert forall|fs: FsModel| #[trigger] r.outcome(fs) == then_settle(fs, walk(fs, start, chars@.skip(pos0 as int))) by {
                assert(r.outcome(fs) == then_settle(fs, walk(fs, current@, rest)));
                assert(then_settle(fs, walk(fs, current@, chars@.skip(pos as int)))
                    == then_settle(fs, walk(fs, start, chars@.skip(pos0 as int))));
            }
            return r;
        }
    }
    assert(chars@.skip(pos as int) =~= Seq::<char>::empty());
    let r = PathResolution::AskIsLink { path: current };
    assert forall|fs: FsModel| #[trigger] r.outcome(fs) == then_settle(fs, walk(fs, start, chars@.skip(pos0 as int))) by {
        assert(then_settle(fs, walk(fs, current@, chars@.skip(pos as int)))
            == then_settle(fs, walk(fs, start, chars@.skip(pos0 as int))));
    }
    r
}

impl PathResolution {
    /// The question the resolution waits on; `None` once it is done.
    pub fn query(&self) -> (q: Option<Query>)
        ensures
            asks(q, self.pending()),
            self.wf() ==> (q is None <==> self is Done),
    {
        match self {
            PathResolution::AskExists { candidate, .. } => Some(Query::Exists(candidate.clone())),
            PathResolution::AskIsLink { path } => Some(Query::IsSymlink(path.clone())),
            PathResolution::AskIsDir { path } => Some(Query::IsDir(path.clone())),
            PathResolution::Following { walk } => walk.query(),
            PathResolution::AskChainDir { target, .. } => Some(Query::IsDir(target.clone())),
            PathResolution::Done(_) => None,
        }
    }

    /// Takes the filesystem's answer to the pending question. On every
    /// filesystem that gives that answer the resolution ends where it would
    /// have.
    pub fn resume(self, reply: Reply) -> (r: PathResolution)
        requires
            self.wf(),
        ensures
            r.wf(),
            self.pending() is Some ==> r.rank() < self.rank(),
            self.pending() is None ==> r == self,
            forall|fs: FsModel|
                #[trigger] fs.answers(self.pending()->0, reply) && self.pending() is Some
                    ==> r.outcome(fs) == self.outcome(fs),
    {
        let ghost start_rank = self.rank();
        match self {
            PathResolution::AskExists { candidate, chars, pos } => match reply {
                Reply::Flag(true) => {
                    assert(start_rank == 2 * (MAX_LINK_HOPS as nat) + 5 + (chars.len() - pos));
                    advance_walk(candidate, chars, pos)
                },
                _ => PathResolution::Done(Err(PathError::NotFound(candidate))),
            },
            PathResolution::AskIsLink { path } => match reply {
                Reply::Flag(true) => PathResolution::Following { walk: resolve_symlink(path.as_str()) },
                _ => PathResolution::AskIsDir { path },
            },
            PathResolution::AskIsDir { path } => match reply {
                Reply::Flag(true) => PathResolution::Done(Ok(path)),
                _ => PathResolution::Done(Err(PathError::NotADirectory(path))),
            },
            PathResolution::Following { walk } => {
                let w = walk.resume(reply);
                match w {
                    LinkWalk::Done(Ok((target, chain))) => PathResolution::AskChainDir { target, chain },
                    LinkWalk::Done(Err(e)) => PathResolution::Done(Err(e)),
                    w => PathResolution::Following { walk: w },
                }
            },
            PathResolution::AskChainDir { target, chain } => match reply {
                Reply::Flag(true) => PathResolution::Done(Ok(target)),
                _ => PathResolution::Done(Err(PathError::ChainNotADirectory(chain))),
            },
            PathResolution::Done(r) => PathResolution::Done(r),
        }
    }
}

/// Starts resolving the directory change target `target` from the working
/// directory `cwd`. Backslashes in the target read as forward slashes. A target
/// that starts with `/` is taken as it stands, `..` names the parent of `cwd`,
/// and any other target is walked from `cwd` one segment at a time.
pub fn parse_path(cwd: &str, target: &str) -> (r: PathResolution)
    ensures
        r.wf(),
        forall|fs: FsModel| #[trigger] r.outcome(fs) == resolve_spec(fs, cwd@, target@),
        cwd@ == seq!['/'] && normalized(target@) == seq!['.', '.'] ==> forall|fs: FsModel|
            #[trigger] r.outcome(fs) == Err::<Seq<char>, PathFault>(PathFault::NoParent(cwd@)),
{
    let mut chars: Vec<char> = Vec::new();
    let mut t = String::new();
    for c in it: target.chars()
        invariant
            it.seq() == target@,
            chars@ == normalized(target@.take(it.index() as int)),
            t@ == chars@,
    {
        let d = if c == '\\' {
            '/'
        } else {
            c
        };
        chars.push(d);
        t.push(d);
        assert(normalized(target@.take(it.index() + 1)) =~= normalized(target@.take(it.index() as int)).push(d));
    }
    assert(target@.take(target@.len() as int) == target@);
    if chars.len() > 0 && chars[0] == '/' {
        PathResolution::AskIsLink { path: t }
    } else if chars.len() == 2 && chars[0] == '.' && chars[1] == '.' {
        assert(chars@ =~= seq!['.', '.']);
        match path_parent(cwd) {
            Some(p) => PathResolution::Done(Ok(p)),
            None => PathResolution::Done(Err(PathError::NoParent(cwd.to_owned()))),
        }
    } else {
        assert(chars@ != seq!['.', '.']);
        assert(chars@.skip(0) == chars@);
        advance_walk(cwd.to_owned(), chars, 0)
    }
}

/// `..` names the parent of the working directory, and fails where the
/// working directory has none.
pub proof fn lemma_dot_dot_is_parent(fs: FsModel, cwd: Seq<char>)
    ensures
        resolve_spec(fs, cwd, seq!['.', '.']) == match parent_of(cwd) {
            Some(p) => Ok(p),
            None => Err(PathFault::NoParent(cwd)),
        },
{
    assert(normalized(seq!['.', '.']) =~= seq!['.', '.']);
}

/// A segment whose path does not exist ends the walk with an error that names
/// that path, whatever follows it and whatever the filesystem holds further on.
pub proof fn lemma_missing_segment_stops_walk(
    fs: FsModel,
    current: Seq<char>,
    seg: Seq<char>,
    rest: Seq<char>,
)
    requires
        seg != seq!['.'],
        seg != seq!['.', '.'],
        forall|j: int| 0 <= j < seg.len() ==> seg[j] != '/',
        !(fs.exists)(joined(current, seg)),
    ensures
        walk(fs, current, seg + seq!['/'] + rest) == Err::<Seq<char>, PathFault>(
            PathFault::NotFound(joined(current, seg)),
        ),
{
    let t = seg + seq!['/'] + rest;
    lemma_seg_len(t, seg.len() as int);
    assert(t.take(seg.len() as int) =~= seg);
    if seg.len() == 1 {
        assert(seg =~= seq![seg[0]]);
    }
    if seg.len() == 2 {
        assert(seg =~= seq![seg[0], seg[1]]);
    }
}

/// From the working directory, a relative target whose first segment does not
/// exist fails naming the path of that segment, before any later segment is
/// looked at.
pub proof fn lemma_missing_first_segment(
    fs: FsModel,
    cwd: Seq<char>,
    seg: Seq<char>,
    rest: Seq<char>,
)
    requires
        seg.len() > 0,
        seg != seq!['.'],
        seg != seq!['.', '.'],
        forall|j: int| 0 <= j < seg.len() ==> seg[j] != '/' && seg[j] != '\\',
        !(fs.exists)(joined(cwd, seg)),
    ensures
        resolve_spec(fs, cwd, seg + seq!['/'] + rest) == Err::<Seq<char>, PathFault>(
            PathFault::NotFound(joined(cwd, seg)),
        ),
{
    let t = seg + seq!['/'] + rest;
    assert(normalized(t) =~= seg + seq!['/'] + normalized(rest));
    lemma_missing_segment_stops_walk(fs, cwd, seg, normalized(rest));
    assert(normalized(t) != seq!['.', '.']) by {
        if normalized(t) == seq!['.', '.'] {
            assert(normalized(t)[seg.len() as int] == '/');
        }
    }
}

/// A chain of two links `a -> b -> c`, where `c` is no link, resolves to `c`
/// with the chain `[a, b, c]`; the target is `c` where `c` is a directory, and
/// otherwise the failure reports that chain.
pub proof fn lemma_two_link_chain(fs: FsModel, a: Seq<char>, b: Seq<char>, c: Seq<char>)
    requires
        (fs.is_symlink)(a),
        (fs.read_link)(a) == Ok::<Seq<char>, Seq<char>>(b),
        (fs.is_symlink)(b),
        (fs.read_link)(b) == Ok::<Seq<char>, Seq<char>>(c),
        !(fs.is_symlink)(c),
    ensures
        symlink_chain(fs, a) == Ok::<(Seq<char>, Seq<Seq<char>>), PathFault>((c, seq![a, b, c])),
        settle(fs, a) == if (fs.is_dir)(c) {
            Ok(c)
        } else {
            Err(PathFault::ChainNotADirectory(seq![a, b, c]))
        },
{
    assert(seq![a].push(b).push(c) =~= seq![a, b, c]);
    assert(follow(fs, c, seq![a, b, c], 38) == Ok::<(Seq<char>, Seq<Seq<char>>), PathFault>((c, seq![a, b, c])));
    assert(follow(fs, b, seq![a].push(b), 39) == follow(fs, c, seq![a, b, c], 38));
}

/// Following links from inside a closed set of readable links, with no
/// way out of it, ends in the cycle error.
proof fn lemma_follow_trapped(
    fs: FsModel,
    trap: spec_fn(Seq<char>) -> bool,
    current: Seq<char>,
    chain: Seq<Seq<char>>,
    fuel: nat,
)
    requires
        trap(current),
        forall|p: Seq<char>|
            #[trigger] trap(p) ==> (fs.is_symlink)(p) && (fs.read_link)(p) is Ok && trap(
                (fs.read_link)(p)->Ok_0,
            ),
    ensures
        follow(fs, current, chain, fuel) is Err,
        follow(fs, current, chain, fuel)->Err_0 is LinkCycle,
        follow(fs, current, chain, fuel)->Err_0->LinkCycle_0.len() == chain.len() + fuel,
    decreases fuel,
{
    if fuel > 0 {
        let t = (fs.read_link)(current)->Ok_0;
        lemma_follow_trapped(fs, trap, t, chain.push(t), (fuel - 1) as nat);
    }
}

/// A chain of links that never leaves a cycle, such as a link to itself or
/// `a -> b -> a`, ends in the cycle error once `MAX_LINK_HOPS` links have been
/// read, and reports every path visited.
pub proof fn lemma_link_cycle_fails(fs: FsModel, trap: spec_fn(Seq<char>) -> bool, path: Seq<char>)
    requires
        trap(path),
        forall|p: Seq<char>|
            #[trigger] trap(p) ==> (fs.is_symlink)(p) && (fs.read_link)(p) is Ok && trap(
                (fs.read_link)(p)->Ok_0,
            ),
    ensures
        symlink_chain(fs, path) is Err,
        symlink_chain(fs, path)->Err_0 is LinkCycle,
        symlink_chain(fs, path)->Err_0->LinkCycle_0.len() == MAX_LINK_HOPS + 1,
        settle(fs, path) == Err::<Seq<char>, PathFault>(symlink_chain(fs, path)->Err_0),
{
    lemma_follow_trapped(fs, trap, path, seq![path], MAX_LINK_HOPS as nat);
}

/// Each path of `chain` but the last is a link to the path after it.
pub open spec fn linked_chain(fs: FsModel, chain: Seq<Seq<char>>) -> bool {
    forall|i: int|
        0 <= i < chain.len() - 1 ==> (fs.is_symlink)(#[trigger] chain[i]) && (fs.read_link)(chain[i])
            == Ok::<Seq<char>, Seq<char>>(chain[i + 1])
}

proof fn lemma_follow_shape(fs: FsModel, current: Seq<char>, chain: Seq<Seq<char>>, fuel: nat)
    requires
        chain.len() > 0,
        chain.last() == current,
        linked_chain(fs, chain),
        follow(fs, current, chain, fuel) is Ok,
    ensures
        ({
            let (t, full) = follow(fs, current, chain, fuel)->Ok_0;
            &&& full.len() >= chain.len()
            &&& full.take(chain.len() as int) == chain
            &&& full.last() == t
            &&& !(fs.is_symlink)(t)
            &&& linked_chain(fs, full)
        }),
    decreases fuel,
{
    if (fs.is_symlink)(current) {
        let t = (fs.read_link)(current)->Ok_0;
        let next = chain.push(t);
        assert(linked_chain(fs, next)) by {
            assert forall|i: int| 0 <= i < next.len() - 1 implies (fs.is_symlink)(#[trigger] next[i])
                && (fs.read_link)(next[i]) == Ok::<Seq<char>, Seq<char>>(next[i + 1]) by {
                if i < chain.len() - 1 {
                    assert(next[i] == chain[i] && next[i + 1] == chain[i + 1]);
                }
            }
        }
        lemma_follow_shape(fs, t, next, (fuel - 1) as nat);
        let full = follow(fs, current, chain, fuel)->Ok_0.1;
        assert(full.take(chain.len() as int) =~= full.take(next.len() as int).take(chain.len() as int));
        assert(next.take(chain.len() as int) =~= chain);
    } else {
        assert(chain.take(chain.len() as int) =~= chain);
    }
}

/// A chain of links that resolves starts at the path it was asked for and ends
/// at the final path, which is no link; each path before that is a link whose
/// target is the next path of the chain.
pub proof fn lemma_chain_shape(fs: FsModel, path: Seq<char>)
    requires
        symlink_chain(fs, path) is Ok,
    ensures
        ({
            let (t, chain) = symlink_chain(fs, path)->Ok_0;
            &&& chain[0] == path
            &&& chain.last() == t
            &&& !(fs.is_symlink)(t)
            &&& linked_chain(fs, chain)
        }),
{
    lemma_follow_shape(fs, path, seq![path], MAX_LINK_HOPS as nat);
    let chain = symlink_chain(fs, path)->Ok_0.1;
    assert(chain[0] == chain.take(1)[0]);
}

/// The paths of a chain, joined by arrows.
pub open spec fn arrow_chain(chain: Seq<Seq<char>>) -> Seq<char>
    decreases chain.len(),
{
    if chain.len() == 0 {
        Seq::empty()
    } else if chain.len() == 1 {
        chain[0]
    } else {
        arrow_chain(chain.drop_last()) + " -> "@ + chain.last()
    }
}

/// The report of a failed resolution.
pub open spec fn fault_message(e: PathFault) -> Seq<char> {
    match e {
        PathFault::NoParent(p) => "Can't extract parent directory from "@ + p + "\n"@,
        PathFault::NotFound(p) => "Can't find directory "@ + p + "\n"@,
        PathFault::NotADirectory(p) => "Can't CD into non-directory path: "@ + p + "\n"@,
        PathFault::ChainNotADirectory(c) => "Can't CD onto non-directory path: "@ + arrow_chain(c)
            + "\n"@,
        PathFault::LinkUnreadable(m) => "Failed to read symlink target: "@ + m + "\n"@,
        PathFault::LinkCycle(c) => "Too many levels of symbolic links: "@ + arrow_chain(c) + "\n"@,
    }
}

fn arrows(chain: &Vec<String>) -> (r: String)
    ensures
        r@ == arrow_chain(strings_view(chain@)),
{
    let mut r = String::new();
    let n = chain.len();
    let mut i: usize = 0;
    while i < n
        invariant
            n == chain.len(),
            i <= n,
            r@ == arrow_chain(strings_view(chain@.take(i as int))),
        decreases n - i,
    {
        let ghost before = r@;
        assert(strings_view(chain@.take(i + 1)).drop_last() =~= strings_view(chain@.take(i as int)));
        if i > 0 {
            r.append(" -> ");
        }
        r.append(chain[i].as_str());
        proof {
            let w = strings_view(chain@.take(i + 1));
            if i == 0 {
                assert(w =~= seq![chain@[0]@]);
                assert(r@ =~= w[0]);
            } else {
                assert(r@ =~= before + " -> "@ + w.last());
            }
        }
        i = i + 1;
    }
    assert(chain@.take(n as int) =~= chain@);
    r
}

fn framed(head: &str, body: &str) -> (r: String)
    ensures
        r@ == head@ + body@ + "\n"@,
{
    let mut r = head.to_owned();
    r.append(body);
    r.append("\n");
    r
}

impl PathError {
    /// The report of this failure, for the user.
    pub fn message(&self) -> (r: String)
        ensures
            r@ == fault_message(self@),
    {
        match self {
            PathError::NoParent(p) => framed("Can't extract parent directory from ", p.as_str()),
            PathError::NotFound(p) => framed("Can't find directory ", p.as_str()),
            PathError::NotADirectory(p) => framed("Can't CD into non-directory path: ", p.as_str()),
            PathError::ChainNotADirectory(c) => {
                let a = arrows(c);
                framed("Can't CD onto non-directory path: ", a.as_str())
            },
            PathError::LinkUnreadable(m) => framed("Failed to read symlink target: ", m.as_str()),
            PathError::LinkCycle(c) => {
                let a = arrows(c);
                framed("Too many levels of symbolic links: ", a.as_str())
            },
        }
    }
}

} // verus!

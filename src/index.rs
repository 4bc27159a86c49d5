use vstd::prelude::*;

use crate::text::strings_view;

verus! {

/// An executable that can be suggested: where it is, and the name shown.
pub struct Suggestion {
    pub path: String,
    pub name: String,
}

impl Suggestion {
    pub open spec fn view(&self) -> (Seq<char>, Seq<char>) {
        (self.path@, self.name@)
    }
}

pub open spec fn suggestions_view(v: Seq<Suggestion>) -> Seq<(Seq<char>, Seq<char>)> {
    v.map_values(|s: Suggestion| s@)
}

/// Whether some entry of `s` shows `name`.
pub open spec fn shows(s: Seq<(Seq<char>, Seq<char>)>, name: Seq<char>) -> bool {
    exists|j: int| 0 <= j < s.len() && (#[trigger] s[j]).1 == name
}

/// `s` with every entry dropped whose name an earlier entry already shows.
pub open spec fn first_of_each_name(s: Seq<(Seq<char>, Seq<char>)>) -> Seq<(Seq<char>, Seq<char>)>
    decreases s.len(),
{
    if s.len() == 0 {
        s
    } else if shows(s.drop_last(), s.last().1) {
        first_of_each_name(s.drop_last())
    } else {
        first_of_each_name(s.drop_last()).push(s.last())
    }
}

proof fn lemma_first_of_each_name_shows(s: Seq<(Seq<char>, Seq<char>)>, name: Seq<char>)
    ensures
        shows(first_of_each_name(s), name) == shows(s, name),
    decreases s.len(),
{
    if s.len() > 0 {
        let p = s.drop_last();
        lemma_first_of_each_name_shows(p, name);
        if shows(s, name) && !shows(p, name) {
            assert(s.last().1 == name) by {
                let j = choose|j: int| 0 <= j < s.len() && (#[trigger] s[j]).1 == name;
                if j < s.len() - 1 {
                    assert(p[j] == s[j]);
                }
            }
        }
        if shows(p, name) {
            let j = choose|j: int| 0 <= j < p.len() && (#[trigger] p[j]).1 == name;
            assert(s[j] == p[j]);
        }
        let d = first_of_each_name(p);
        if !shows(p, s.last().1) {
            if shows(d, name) {
                let j = choose|j: int| 0 <= j < d.len() && (#[trigger] d[j]).1 == name;
                assert(d.push(s.last())[j] == d[j]);
            }
            if s.last().1 == name {
                assert(d.push(s.last())[d.len() as int].1 == name);
            }
        }
    }
}

/// The entry at `i` is the first of `s` that shows its name.
pub open spec fn first_with_its_name(s: Seq<(Seq<char>, Seq<char>)>, i: int) -> bool {
    0 <= i < s.len() && forall|j: int| 0 <= j < i ==> (#[trigger] s[j]).1 != s[i].1
}

proof fn lemma_kept_names_unique(s: Seq<(Seq<char>, Seq<char>)>)
    ensures
        forall|a: int, b: int|
            0 <= a < b < first_of_each_name(s).len() ==> (#[trigger] first_of_each_name(s)[a]).1
                != (#[trigger] first_of_each_name(s)[b]).1,
    decreases s.len(),
{
    if s.len() > 0 {
        let p = s.drop_last();
        let d = first_of_each_name(s);
        let dp = first_of_each_name(p);
        lemma_kept_names_unique(p);
        if !shows(p, s.last().1) {
            lemma_first_of_each_name_shows(p, s.last().1);
            assert forall|a: int, b: int| 0 <= a < b < d.len() implies (#[trigger] d[a]).1 != (#[trigger] d[b]).1 by {
                if b == dp.len() {
                    assert(d[a] == dp[a]);
                    if d[a].1 == s.last().1 {
                        assert(shows(dp, s.last().1));
                    }
                } else {
                    assert(d[a] == dp[a] && d[b] == dp[b]);
                }
            }
        }
    }
}

proof fn lemma_kept_entries_first(s: Seq<(Seq<char>, Seq<char>)>)
    ensures
        forall|k: int|
            0 <= k < first_of_each_name(s).len() ==> is_first_of_its_name(
                s,
                #[trigger] first_of_each_name(s)[k],
            ),
    decreases s.len(),
{
    if s.len() > 0 {
        let p = s.drop_last();
        let d = first_of_each_name(s);
        let dp = first_of_each_name(p);
        lemma_kept_entries_first(p);
        let last = s.len() - 1;
        assert forall|k: int| 0 <= k < d.len() implies is_first_of_its_name(s, #[trigger] d[k]) by {
            if k == dp.len() {
                assert forall|j: int| 0 <= j < last implies (#[trigger] s[j]).1 != s[last].1 by {
                    assert(s[j] == p[j]);
                }
                assert(first_with_its_name(s, last) && s[last] == d[k]);
                assert(is_first_of_its_name(s, d[k]));
            } else {
                assert(d[k] == dp[k]);
                assert(is_first_of_its_name(p, dp[k]));
                let i = choose|i: int| first_with_its_name(p, i) && p[i] == dp[k];
                assert forall|j: int| 0 <= j < i implies (#[trigger] s[j]).1 != s[i].1 by {
                    assert(s[j] == p[j]);
                }
                assert(first_with_its_name(s, i) && s[i] == d[k]);
                assert(is_first_of_its_name(s, d[k]));
            }
        }
    }
}

/// `e` is an entry of `s` that is the first to show its name.
pub open spec fn is_first_of_its_name(s: Seq<(Seq<char>, Seq<char>)>, e: (Seq<char>, Seq<char>)) -> bool {
    exists|i: int| first_with_its_name(s, i) && s[i] == e
}

/// Of the entries that show one name only the first stays: no two entries
/// kept show the same name, each entry kept is the first of the input that
/// shows its name, and every name of the input is still shown.
pub proof fn lemma_first_entry_wins(s: Seq<(Seq<char>, Seq<char>)>)
    ensures
        forall|a: int, b: int|
            0 <= a < b < first_of_each_name(s).len() ==> (#[trigger] first_of_each_name(s)[a]).1
                != (#[trigger] first_of_each_name(s)[b]).1,
        forall|k: int|
            0 <= k < first_of_each_name(s).len() ==> is_first_of_its_name(
                s,
                #[trigger] first_of_each_name(s)[k],
            ),
        forall|name: Seq<char>| shows(s, name) ==> #[trigger] shows(first_of_each_name(s), name),
{
    lemma_kept_names_unique(s);
    lemma_kept_entries_first(s);
    assert forall|name: Seq<char>| shows(s, name) implies #[trigger] shows(first_of_each_name(s), name) by {
        lemma_first_of_each_name_shows(s, name);
    }
}

/// Keeps, of the entries that show one name, only the first.
pub fn dedup_by_name(entries: Vec<Suggestion>) -> (r: Vec<Suggestion>)
    ensures
        suggestions_view(r@) == first_of_each_name(suggestions_view(entries@)),
{
    let mut r: Vec<Suggestion> = Vec::new();
    let n = entries.len();
    let mut i: usize = 0;
    while i < n
        invariant
            n == entries.len(),
            i <= n,
            suggestions_view(r@) == first_of_each_name(suggestions_view(entries@.take(i as int))),
        decreases n - i,
    {
        let ghost prefix = suggestions_view(entries@.take(i as int));
        let ghost next = suggestions_view(entries@.take(i + 1));
        assert(next.drop_last() =~= prefix);
        let mut seen = false;
        let mut k: usize = 0;
        while k < r.len()
            invariant
                n == entries.len(),
                i < n,
                k <= r.len(),
                seen == exists|j: int| 0 <= j < k && (#[trigger] r@[j]).name@ == entries@[i as int].name@,
            decreases r.len() - k,
        {
            if r[k].name == entries[i].name {
                seen = true;
            }
            k = k + 1;
        }
        proof {
            let d = suggestions_view(r@);
            lemma_first_of_each_name_shows(prefix, entries@[i as int].name@);
            if seen {
                let j = choose|j: int| 0 <= j < r.len() && (#[trigger] r@[j]).name@ == entries@[i as int].name@;
                assert(d[j].1 == entries@[i as int].name@);
            }
            if shows(d, entries@[i as int].name@) {
                let j = choose|j: int| 0 <= j < d.len() && (#[trigger] d[j]).1 == entries@[i as int].name@;
                assert(r@[j].name@ == entries@[i as int].name@);
            }
        }
        if !seen {
            let ghost before = r@;
            r.push(Suggestion { path: entries[i].path.clone(), name: entries[i].name.clone() });
            assert(suggestions_view(r@) =~= suggestions_view(before).push(entries@[i as int]@));
        }
        i = i + 1;
    }
    assert(entries@.take(n as int) =~= entries@);
    r
}

/// The pieces of `s` between occurrences of `delimiter`, empty ones included.
pub open spec fn split_on(s: Seq<char>, delimiter: char) -> Seq<Seq<char>>
    decreases s.len(),
{
    if s.len() == 0 {
        seq![Seq::empty()]
    } else {
        let p = split_on(s.drop_last(), delimiter);
        if s.last() == delimiter {
            p.push(Seq::empty())
        } else {
            p.update(p.len() - 1, p.last().push(s.last()))
        }
    }
}

proof fn lemma_split_on_len(s: Seq<char>, delimiter: char)
    ensures
        split_on(s, delimiter).len() >= 1,
    decreases s.len(),
{
    if s.len() > 0 {
        lemma_split_on_len(s.drop_last(), delimiter);
    }
}

/// The entries of a list of paths such as the PATH variable holds, split on
/// `delimiter`.
pub fn split_path_list(value: &str, delimiter: char) -> (r: Vec<String>)
    ensures
        strings_view(r@) == split_on(value@, delimiter),
{
    let mut pieces: Vec<String> = Vec::new();
    let mut current = String::new();
    for c in it: value.chars()
        invariant
            it.seq() == value@,
            strings_view(pieces@).push(current@) == split_on(value@.take(it.index() as int), delimiter),
    {
        let ghost before = strings_view(pieces@).push(current@);
        proof {
            assert(value@.take(it.index() + 1).drop_last() =~= value@.take(it.index() as int));
            lemma_split_on_len(value@.take(it.index() as int), delimiter);
        }
        if c == delimiter {
            pieces.push(current);
            current = String::new();
            assert(strings_view(pieces@).push(current@) =~= before.push(Seq::empty()));
        } else {
            current.push(c);
            assert(strings_view(pieces@).push(current@) =~= before.update(
                before.len() - 1,
                before.last().push(c),
            ));
        }
    }
    assert(value@.take(value@.len() as int) =~= value@);
    let ghost before = strings_view(pieces@);
    pieces.push(current);
    assert(strings_view(pieces@) =~= before.push(current@));
    pieces
}

/// The index of the last `.` in `s`, or -1 where there is none.
pub open spec fn last_dot(s: Seq<char>) -> int
    decreases s.len(),
{
    if s.len() == 0 {
        -1
    } else if s.last() == '.' {
        s.len() - 1
    } else {
        last_dot(s.drop_last())
    }
}

/// The extension of a file name: what follows its last `.`, unless that `.`
/// is its first character or there is none.
pub open spec fn extension(name: Seq<char>) -> Option<Seq<char>> {
    let k = last_dot(name);
    if k <= 0 {
        None
    } else {
        Some(name.skip(k + 1))
    }
}

/// Where files carry no permission bits, only files with no extension or with
/// a `bat` or `exe` extension are worth testing for executability.
pub open spec fn extension_allowed(name: Seq<char>) -> bool {
    match extension(name) {
        None => true,
        Some(e) => e == seq!['b', 'a', 't'] || e == seq!['e', 'x', 'e'],
    }
}

proof fn lemma_last_dot_bounds(s: Seq<char>)
    ensures
        -1 <= last_dot(s) < s.len(),
        last_dot(s) >= 0 ==> s[last_dot(s)] == '.',
        forall|j: int| last_dot(s) < j < s.len() ==> s[j] != '.',
    decreases s.len(),
{
    if s.len() > 0 {
        lemma_last_dot_bounds(s.drop_last());
        assert forall|j: int| last_dot(s) < j < s.len() implies s[j] != '.' by {
            if j < s.len() - 1 {
                assert(s[j] == s.drop_last()[j]);
            }
        }
    }
}

/// Whether a file of this name is worth testing for executability where files
/// carry no permission bits.
pub fn has_allowed_extension(name: &str) -> (r: bool)
    ensures
        r == extension_allowed(name@),
{
    let n = name.unicode_len();
    let mut k: usize = n;
    while k > 0 && name.get_char(k - 1) != '.'
        invariant
            n == name@.len(),
            k <= n,
            forall|j: int| k <= j < n ==> name@[j] != '.',
        decreases k,
    {
        k = k - 1;
    }
    proof {
        lemma_last_dot_bounds(name@);
        let d = last_dot(name@);
        if k > 0 {
            assert(name@[k - 1] == '.');
            assert(d == k - 1);
        } else {
            assert(d == -1);
        }
    }
    if k <= 1 {
        return true;
    }
    let ext = name.substring_char(k, n);
    proof {
        reveal_strlit("bat");
        reveal_strlit("exe");
        assert("bat"@ =~= seq!['b', 'a', 't']);
        assert("exe"@ =~= seq!['e', 'x', 'e']);
        assert(ext@ =~= name@.skip(k as int));
    }
    let bat = "bat".to_owned();
    let exe = "exe".to_owned();
    let e = ext.to_owned();
    e == bat || e == exe
}

/// `s` without `suffix` where it ends with it.
pub open spec fn strip_suffix(s: Seq<char>, suffix: Seq<char>) -> Seq<char> {
    if suffix.is_suffix_of(s) {
        s.subrange(0, s.len() - suffix.len())
    } else {
        s
    }
}

fn without_suffix(s: &str, suffix: &str) -> (r: String)
    ensures
        r@ == strip_suffix(s@, suffix@),
{
    let n = s.unicode_len();
    let m = suffix.unicode_len();
    if m > n {
        return s.to_owned();
    }
    let mut i: usize = 0;
    while i < m
        invariant
            n == s@.len(),
            m == suffix@.len(),
            m <= n,
            i <= m,
            forall|j: int| 0 <= j < i ==> s@[n - m + j] == suffix@[j],
        decreases m - i,
    {
        if s.get_char(n - m + i) != suffix.get_char(i) {
            proof {
                assert(s@.subrange(n - m, n as int)[i as int] != suffix@[i as int]);
            }
            return s.to_owned();
        }
        i = i + 1;
    }
    assert(suffix@ =~= s@.subrange(n - m, n as int));
    s.substring_char(0, n - m).to_owned()
}

/// The name shown for an executable file: where `windows` holds, without an
/// `.exe` and then without a `.bat` ending.
pub open spec fn shown_name(file_name: Seq<char>, windows: bool) -> Seq<char> {
    if windows {
        strip_suffix(strip_suffix(file_name, seq!['.', 'e', 'x', 'e']), seq!['.', 'b', 'a', 't'])
    } else {
        file_name
    }
}

/// The name shown for the executable file `file_name`.
pub fn display_name(file_name: &str, windows: bool) -> (r: String)
    ensures
        r@ == shown_name(file_name@, windows),
{
    if !windows {
        return file_name.to_owned();
    }
    proof {
        reveal_strlit(".exe");
        reveal_strlit(".bat");
        assert(".exe"@ =~= seq!['.', 'e', 'x', 'e']);
        assert(".bat"@ =~= seq!['.', 'b', 'a', 't']);
    }
    let a = without_suffix(file_name, ".exe");
    without_suffix(a.as_str(), ".bat")
}

/// A file found through the PATH variable, with what the filesystem says of it.
pub struct Candidate {
    pub path: String,
    /// The file's name, where it is valid text.
    pub file_name: Option<String>,
    pub is_symlink: bool,
    pub is_executable: bool,
}

/// Whether a candidate becomes a suggestion: it is no link, it has a name, it
/// is executable and, where `windows` holds, its extension is allowed.
pub open spec fn admitted(c: Candidate, windows: bool) -> bool {
    &&& !c.is_symlink
    &&& c.file_name is Some
    &&& (!windows || extension_allowed(c.file_name->0@))
    &&& c.is_executable
}

/// The entries that the candidates give, in their order.
pub open spec fn candidate_entries(cs: Seq<Candidate>, windows: bool) -> Seq<(Seq<char>, Seq<char>)>
    decreases cs.len(),
{
    if cs.len() == 0 {
        Seq::empty()
    } else {
        let rest = candidate_entries(cs.drop_last(), windows);
        let c = cs.last();
        if admitted(c, windows) {
            rest.push((c.path@, shown_name(c.file_name->0@, windows)))
        } else {
            rest
        }
    }
}

proof fn lemma_candidate_entries_append(a: Seq<Candidate>, b: Seq<Candidate>, windows: bool)
    ensures
        candidate_entries(a + b, windows) == candidate_entries(a, windows) + candidate_entries(
            b,
            windows,
        ),
    decreases b.len(),
{
    if b.len() == 0 {
        assert(a + b =~= a);
        assert(candidate_entries(a, windows) + candidate_entries(b, windows) =~= candidate_entries(
            a,
            windows,
        ));
    } else {
        lemma_candidate_entries_append(a, b.drop_last(), windows);
        assert((a + b).drop_last() =~= a + b.drop_last());
        assert((a + b).last() == b.last());
        let ea = candidate_entries(a, windows);
        let eb = candidate_entries(b.drop_last(), windows);
        let c = b.last();
        if admitted(c, windows) {
            assert(ea + eb.push((c.path@, shown_name(c.file_name->0@, windows))) =~= (ea + eb).push(
                (c.path@, shown_name(c.file_name->0@, windows)),
            ));
        }
    }
}

/// Where the files of an earlier PATH directory come before those of a later
/// one and both directories give an executable that shows `name`, the index
/// holds that name exactly once, with an entry of the earlier directory.
pub proof fn lemma_earlier_directory_wins(
    earlier: Seq<Candidate>,
    later: Seq<Candidate>,
    windows: bool,
    name: Seq<char>,
)
    requires
        shows(candidate_entries(earlier, windows), name),
    ensures
        ({
            let kept = first_of_each_name(candidate_entries(earlier + later, windows));
            &&& shows(kept, name)
            &&& forall|k: int|
                0 <= k < kept.len() && (#[trigger] kept[k]).1 == name ==> candidate_entries(
                    earlier,
                    windows,
                ).contains(kept[k])
            &&& forall|k: int, m: int|
                0 <= k < kept.len() && 0 <= m < kept.len() && (#[trigger] kept[k]).1 == name && (
                #[trigger] kept[m]).1 == name ==> k == m
        }),
{
    let e1 = candidate_entries(earlier, windows);
    let all = candidate_entries(earlier + later, windows);
    lemma_candidate_entries_append(earlier, later, windows);
    lemma_first_entry_wins(all);
    let kept = first_of_each_name(all);
    let j = choose|j: int| 0 <= j < e1.len() && (#[trigger] e1[j]).1 == name;
    assert(all[j] == e1[j]);
    assert(shows(all, name));
    assert forall|k: int| 0 <= k < kept.len() && (#[trigger] kept[k]).1 == name implies e1.contains(kept[k]) by {
        assert(is_first_of_its_name(all, kept[k]));
        let i = choose|i: int| first_with_its_name(all, i) && all[i] == kept[k];
        if i > j {
            assert(all[j].1 == all[i].1);
        }
        assert(all[i] == e1[i]);
    }
    assert forall|k: int, m: int|
        0 <= k < kept.len() && 0 <= m < kept.len() && (#[trigger] kept[k]).1 == name && (
        #[trigger] kept[m]).1 == name implies k == m by {
        if k < m {
            assert(kept[k].1 != kept[m].1);
        } else if m < k {
            assert(kept[m].1 != kept[k].1);
        }
    }
}

/// The suggestion index: the executable candidates, in the order given, each
/// under its shown name, and of those that show one name only the first.
pub fn build_index(candidates: &Vec<Candidate>, windows: bool) -> (r: Vec<Suggestion>)
    ensures
        suggestions_view(r@) == first_of_each_name(candidate_entries(candidates@, windows)),
{
    let mut entries: Vec<Suggestion> = Vec::new();
    let n = candidates.len();
    let mut i: usize = 0;
    while i < n
        invariant
            n == candidates.len(),
            i <= n,
            suggestions_view(entries@) == candidate_entries(candidates@.take(i as int), windows),
        decreases n - i,
    {
        let c = &candidates[i];
        assert(candidates@.take(i + 1).drop_last() =~= candidates@.take(i as int));
        if !c.is_symlink && c.is_executable {
            if let Some(f) = &c.file_name {
                if !windows || has_allowed_extension(f.as_str()) {
                    let ghost before = entries@;
                    let name = display_name(f.as_str(), windows);
                    entries.push(Suggestion { path: c.path.clone(), name });
                    assert(suggestions_view(entries@) =~= suggestions_view(before).push(entries@.last()@));
                }
            }
        }
        i = i + 1;
    }
    assert(candidates@.take(n as int) =~= candidates@);
    dedup_by_name(entries)
}

} // verus!

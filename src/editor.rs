use vstd::prelude::*;

use crate::text::{alphanumeric, has_prefix, is_alphanumeric, is_white_space, is_whitespace, strings_view, trim_end};

verus! {

/// The key of a key event, as far as the editor tells keys apart.
pub enum Key {
    Char(char),
    Backspace,
    Enter,
    Tab,
    Other,
}

/// The modifier keys held with a key.
pub enum Modifiers {
    /// No modifier.
    Plain,
    /// Shift alone.
    Shift,
    /// Control alone.
    Control,
    /// Any other combination.
    Other,
}

/// One terminal event, as far as the editor reads it.
pub enum InputEvent {
    /// A key; `press` is false for a repeat or a release.
    Key { key: Key, modifiers: Modifiers, press: bool },
    /// The terminal now has `cols` columns and `rows` rows.
    Resize { cols: u16, rows: u16 },
    /// Pasted text, which the editor does not take.
    Paste,
    /// Anything else.
    Other,
}

/// `s` without its trailing alphanumeric run and the character before that
/// run, unless that character is a symbol (neither alphanumeric nor white
/// space), which stays. Where `first` holds, a symbol at the very end goes
/// first.
pub open spec fn drop_word(s: Seq<char>, first: bool) -> Seq<char>
    decreases s.len(),
{
    if s.len() == 0 {
        s
    } else if alphanumeric(s.last()) {
        drop_word(s.drop_last(), false)
    } else if is_white_space(s.last()) {
        s.drop_last()
    } else if first {
        drop_word(s.drop_last(), false)
    } else {
        s
    }
}

/// The buffer after Ctrl+Backspace.
pub open spec fn word_deleted(s: Seq<char>) -> Seq<char> {
    drop_word(trim_end(s), true)
}

/// Deletes the word before the end of `buf`, as Ctrl+Backspace does: first the
/// trailing white space, then the trailing alphanumeric run with the character
/// before it, which stays where it is a symbol.
pub fn delete_word_backward(buf: &mut String)
    ensures
        final(buf)@ == word_deleted(old(buf)@),
{
    let ghost start = buf@;
    loop
        invariant
            trim_end(buf@) == trim_end(start),
        ensures
            buf@ == trim_end(start),
        decreases buf@.len(),
    {
        let ghost before = buf@;
        match buf.pop() {
            None => {
                break;
            },
            Some(c) => {
                if !is_whitespace(c) {
                    buf.push(c);
                    assert(buf@ == before);
                    break;
                }
            },
        }
    }
    let mut first = true;
    loop
        invariant_except_break
            drop_word(buf@, first) == word_deleted(start),
        ensures
            buf@ == word_deleted(start),
        decreases buf@.len(),
    {
        let ghost before = buf@;
        match buf.pop() {
            None => {
                break;
            },
            Some(ch) => {
                if !is_alphanumeric(ch) {
                    if !is_whitespace(ch) {
                        if first {
                            first = false;
                            continue;
                        }
                        buf.push(ch);
                        assert(buf@ == before);
                    }
                    break;
                }
                first = false;
            },
        }
    }
}

/// The names that start with `typed`, in the order of `names`.
pub open spec fn matching(names: Seq<Seq<char>>, typed: Seq<char>) -> Seq<Seq<char>>
    decreases names.len(),
{
    if names.len() == 0 {
        names
    } else if typed.is_prefix_of(names.last()) {
        matching(names.drop_last(), typed).push(names.last())
    } else {
        matching(names.drop_last(), typed)
    }
}

proof fn lemma_no_match(names: Seq<Seq<char>>, typed: Seq<char>)
    requires
        forall|j: int| 0 <= j < names.len() ==> !typed.is_prefix_of(#[trigger] names[j]),
    ensures
        matching(names, typed).len() == 0,
    decreases names.len(),
{
    if names.len() > 0 {
        lemma_no_match(names.drop_last(), typed);
    }
}

/// The first suggestion is the earliest name, in the order of the index, that
/// starts with the typed text; so it is what Tab completes to.
pub proof fn lemma_first_match_wins(names: Seq<Seq<char>>, typed: Seq<char>, i: int)
    requires
        0 <= i < names.len(),
        typed.is_prefix_of(names[i]),
        forall|j: int| 0 <= j < i ==> !typed.is_prefix_of(#[trigger] names[j]),
    ensures
        matching(names, typed).len() > 0,
        matching(names, typed)[0] == names[i],
    decreases names.len(),
{
    if i == names.len() - 1 {
        lemma_no_match(names.drop_last(), typed);
    } else {
        lemma_first_match_wins(names.drop_last(), typed, i);
    }
}

/// The suggestions that start with `typed`, in the order of `names`.
pub fn filter_suggestions(names: &Vec<String>, typed: &str) -> (r: Vec<String>)
    ensures
        strings_view(r@) == matching(strings_view(names@), typed@),
{
    let mut r: Vec<String> = Vec::new();
    let n = names.len();
    let mut i: usize = 0;
    while i < n
        invariant
            n == names.len(),
            i <= n,
            strings_view(r@) == matching(strings_view(names@.take(i as int)), typed@),
        decreases n - i,
    {
        let ghost before = r@;
        assert(strings_view(names@.take(i + 1)).drop_last() =~= strings_view(names@.take(i as int)));
        if has_prefix(names[i].as_str(), typed) {
            r.push(names[i].clone());
            assert(strings_view(r@) =~= strings_view(before).push(names@[i as int]@));
        }
        i = i + 1;
    }
    assert(names@.take(n as int) =~= names@);
    r
}

/// The line editor: the text typed so far, whether it has been submitted, the
/// terminal's size, and the suggestion that Tab completes to.
pub struct LineEditor {
    pub buffer: String,
    pub submitted: bool,
    pub cols: u16,
    pub rows: u16,
    pub completion: Option<String>,
}

/// The text after one key press, given the suggestion that Tab completes to.
pub open spec fn key_effect(buffer: Seq<char>, completion: Option<Seq<char>>, key: Key, modifiers: Modifiers) -> Seq<char> {
    match modifiers {
        Modifiers::Control => match key {
            Key::Backspace => word_deleted(buffer),
            _ => buffer,
        },
        Modifiers::Other => buffer,
        _ => match key {
            Key::Char(c) => buffer.push(c),
            Key::Backspace => if buffer.len() > 0 {
                buffer.drop_last()
            } else {
                buffer
            },
            Key::Tab => match completion {
                Some(s) => s.push(' '),
                None => buffer,
            },
            _ => buffer,
        },
    }
}

/// Whether a key press submits the line.
pub open spec fn key_submits(key: Key, modifiers: Modifiers) -> bool {
    (modifiers is Plain || modifiers is Shift) && key is Enter
}

pub open spec fn option_view(o: Option<String>) -> Option<Seq<char>> {
    match o {
        Some(s) => Some(s@),
        None => None,
    }
}

impl LineEditor {
    /// An empty line in a terminal of the given size.
    pub fn new(cols: u16, rows: u16) -> (r: LineEditor)
        ensures
            r.buffer@.len() == 0,
            !r.submitted,
            r.cols == cols,
            r.rows == rows,
            r.completion is None,
    {
        LineEditor { buffer: String::new(), submitted: false, cols, rows, completion: None }
    }

    /// Takes one event. A resize records the new size. A key press edits the
    /// text or submits it; a key with any modifier other than Shift or Control
    /// alone, a repeat, a release, a paste and any other event change nothing.
    pub fn apply(&mut self, event: InputEvent)
        ensures
            final(self).completion == old(self).completion,
            match event {
                InputEvent::Resize { cols, rows } => {
                    &&& final(self).cols == cols
                    &&& final(self).rows == rows
                    &&& final(self).buffer@ == old(self).buffer@
                    &&& final(self).submitted == old(self).submitted
                },
                InputEvent::Key { key, modifiers, press } => {
                    &&& final(self).cols == old(self).cols
                    &&& final(self).rows == old(self).rows
                    &&& final(self).buffer@ == if press {
                        key_effect(old(self).buffer@, option_view(old(self).completion), key, modifiers)
                    } else {
                        old(self).buffer@
                    }
                    &&& final(self).submitted == (old(self).submitted || (press && key_submits(key, modifiers)))
                },
                _ => {
                    &&& final(self).cols == old(self).cols
                    &&& final(self).rows == old(self).rows
                    &&& final(self).buffer@ == old(self).buffer@
                    &&& final(self).submitted == old(self).submitted
                },
            },
    {
        match event {
            InputEvent::Resize { cols, rows } => {
                self.cols = cols;
                self.rows = rows;
            },
            InputEvent::Key { key, modifiers, press } => {
                if !press {
                    return;
                }
                match modifiers {
                    Modifiers::Control => {
                        if let Key::Backspace = key {
                            delete_word_backward(&mut self.buffer);
                        }
                    },
                    Modifiers::Other => {},
                    _ => match key {
                        Key::Char(c) => {
                            self.buffer.push(c);
                        },
                        Key::Backspace => {
                            let _ = self.buffer.pop();
                        },
                        Key::Enter => {
                            self.submitted = true;
                        },
                        Key::Tab => {
                            if let Some(s) = &self.completion {
                                let mut b = s.clone();
                                b.push(' ');
                                self.buffer = b;
                            }
                        },
                        Key::Other => {},
                    },
                }
            },
            _ => {},
        }
    }

    /// The suggestions that start with the text typed so far, in the order of
    /// `names`; the first of them becomes what Tab completes to.
    pub fn refresh(&mut self, names: &Vec<String>) -> (r: Vec<String>)
        ensures
            strings_view(r@) == matching(strings_view(names@), old(self).buffer@),
            option_view(final(self).completion) == if r@.len() > 0 {
                Some(r@[0]@)
            } else {
                None::<Seq<char>>
            },
            final(self).buffer == old(self).buffer,
            final(self).submitted == old(self).submitted,
            final(self).cols == old(self).cols,
            final(self).rows == old(self).rows,
    {
        let r = filter_suggestions(names, self.buffer.as_str());
        if r.len() > 0 {
            self.completion = Some(r[0].clone());
        } else {
            self.completion = None;
        }
        r
    }
}

} // verus!

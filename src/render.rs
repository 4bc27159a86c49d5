use vstd::prelude::*;

use crate::text::strings_view;
use crate::text::has_prefix;

verus! {

/// How a piece of the prompt is drawn.
#[derive(Clone, Copy, PartialEq, Eq, Structural)]
pub enum Style {
    /// The frame of the prompt: cyan on black.
    Frame,
    /// The user and branch names: white on black.
    Name,
    /// The branch marker: red on black.
    Marker,
    /// The terminal's own colours.
    Plain,
    /// The leading suggestion: yellow.
    Lead,
    /// The other suggestions and the hint brackets: dimmed.
    Dim,
    /// The empty hint: dimmed grey.
    Faint,
}

/// A piece of text and how it is drawn.
pub struct Span {
    pub text: String,
    pub style: Style,
}

impl Span {
    pub open spec fn view(&self) -> (Seq<char>, Style) {
        (self.text@, self.style)
    }
}

pub open spec fn spans_view(v: Seq<Span>) -> Seq<(Seq<char>, Style)> {
    v.map_values(|s: Span| s@)
}

pub open spec fn frame_bottom() -> Seq<char> {
    seq!['╚', '═', '═', '═', '═', '═', '═', '═', '╝']
}

pub open spec fn empty_hint() -> Seq<char> {
    seq![' ', '{', '}']
}

pub open spec fn separator() -> Seq<char> {
    seq![' ', '|', ' ']
}

/// The dimmed suggestions after the first, each drawn only while the line,
/// which has reached column `x`, stays short of `cols` columns.
pub open spec fn tail_spans(items: Seq<Seq<char>>, x: int, cols: int) -> Seq<(Seq<char>, Style)>
    decreases items.len(),
{
    if items.len() == 0 {
        Seq::empty()
    } else {
        let s = separator() + items[0];
        if x + s.len() >= cols {
            Seq::empty()
        } else {
            seq![(s, Style::Dim)] + tail_spans(items.drop_first(), x + s.len(), cols)
        }
    }
}

/// How the first suggestion is shown after the typed text.
pub open spec fn lead_spans(typed: Seq<char>, first: Seq<char>) -> Seq<(Seq<char>, Style)> {
    if first.is_prefix_of(typed) {
        seq![(seq![' ', '{'], Style::Dim), (first, Style::Lead), (seq!['}'], Style::Dim)]
    } else {
        let cut = if typed.len() <= first.len() {
            typed.len() as int
        } else {
            first.len() as int
        };
        seq![
            (seq![' ', '{'] + typed, Style::Lead),
            (seq!['|'], Style::Plain),
            (first.subrange(cut, first.len() as int) + seq!['}'], Style::Plain),
        ]
    }
}

pub open spec fn width(spans: Seq<(Seq<char>, Style)>) -> int
    decreases spans.len(),
{
    if spans.len() == 0 {
        0
    } else {
        width(spans.drop_last()) + spans.last().0.len()
    }
}

/// The second line of the prompt: the frame, then either the empty hint
/// (fewer than two characters typed, or nothing to suggest) or the
/// suggestions, the first one leading and the others dimmed, as many as fit in
/// `cols` columns.
pub open spec fn hint_spans(typed: Seq<char>, shown: Seq<Seq<char>>, cols: int) -> Seq<
    (Seq<char>, Style),
> {
    let frame = seq![(frame_bottom(), Style::Frame)];
    if typed.len() < 2 || shown.len() == 0 {
        frame + seq![(empty_hint(), Style::Faint)]
    } else {
        let head = frame + lead_spans(typed, shown[0]);
        head + tail_spans(shown.drop_first(), width(head), cols)
    }
}

proof fn lemma_width_push(spans: Seq<(Seq<char>, Style)>, e: (Seq<char>, Style))
    ensures
        width(spans.push(e)) == width(spans) + e.0.len(),
{
    assert(spans.push(e).drop_last() =~= spans);
}

proof fn lemma_tail_clamped(items: Seq<Seq<char>>, x: int, y: int, cols: int)
    requires
        x >= cols,
        y >= cols,
    ensures
        tail_spans(items, x, cols) == tail_spans(items, y, cols),
{
}

/// The width of `spans`, or `cols` where that is less.
fn clamped_width(v: &Vec<Span>, cols: usize) -> (x: usize)
    ensures
        x == if width(spans_view(v@)) < cols {
            width(spans_view(v@))
        } else {
            cols as int
        },
{
    let mut x: usize = 0;
    let mut i: usize = 0;
    while i < v.len()
        invariant
            i <= v.len(),
            x == if width(spans_view(v@.take(i as int))) < cols {
                width(spans_view(v@.take(i as int)))
            } else {
                cols as int
            },
            width(spans_view(v@.take(i as int))) >= 0,
        decreases v.len() - i,
    {
        let n = v[i].text.as_str().unicode_len();
        proof {
            assert(spans_view(v@.take(i + 1)) =~= spans_view(v@.take(i as int)).push(v@[i as int]@));
            lemma_width_push(spans_view(v@.take(i as int)), v@[i as int]@);
        }
        if x < cols && n < cols - x {
            x = x + n;
        } else {
            x = cols;
        }
        i = i + 1;
    }
    assert(v@.take(v.len() as int) =~= v@);
    x
}

fn span(text: String, style: Style) -> (r: Span)
    ensures
        r@ == (text@, style),
{
    Span { text, style }
}

/// The second line of the prompt for the typed text and the suggestions that
/// match it, in a terminal `cols` columns wide.
pub fn hint_line(typed: &str, shown: &Vec<String>, cols: u16) -> (r: Vec<Span>)
    ensures
        spans_view(r@) == hint_spans(typed@, strings_view(shown@), cols as int),
{
    let mut v: Vec<Span> = Vec::new();
    proof {
        reveal_strlit("╚═══════╝");
        reveal_strlit(" {}");
        reveal_strlit(" {");
        reveal_strlit("}");
        reveal_strlit("|");
        reveal_strlit(" | ");
        assert("╚═══════╝"@ =~= frame_bottom());
        assert(" {}"@ =~= empty_hint());
        assert(" {"@ =~= seq![' ', '{']);
        assert("}"@ =~= seq!['}']);
        assert("|"@ =~= seq!['|']);
        assert(" | "@ =~= separator());
    }
    v.push(span("╚═══════╝".to_owned(), Style::Frame));
    let typed_len = typed.unicode_len();
    if typed_len < 2 || shown.len() == 0 {
        v.push(span(" {}".to_owned(), Style::Faint));
        assert(spans_view(v@) =~= hint_spans(typed@, strings_view(shown@), cols as int));
        return v;
    }
    let first = &shown[0];
    assert(strings_view(shown@)[0] == first@);
    if has_prefix(typed, first.as_str()) {
        v.push(span(" {".to_owned(), Style::Dim));
        v.push(span(first.clone(), Style::Lead));
        v.push(span("}".to_owned(), Style::Dim));
        assert(spans_view(v@) =~= seq![
            (frame_bottom(), Style::Frame),
            (seq![' ', '{'], Style::Dim),
            (first@, Style::Lead),
            (seq!['}'], Style::Dim),
        ]);
    } else {
        let mut a = " {".to_owned();
        a.append(typed);
        assert(a@ == seq![' ', '{'] + typed@);
        v.push(span(a, Style::Lead));
        v.push(span("|".to_owned(), Style::Plain));
        let first_len = first.as_str().unicode_len();
        let cut = if typed_len <= first_len {
            typed_len
        } else {
            first_len
        };
        let mut b = first.as_str().substring_char(cut, first_len).to_owned();
        b.push('}');
        assert(b@ == first@.subrange(cut as int, first@.len() as int) + seq!['}']);
        v.push(span(b, Style::Plain));
        assert(spans_view(v@) =~= seq![
            (frame_bottom(), Style::Frame),
            (seq![' ', '{'] + typed@, Style::Lead),
            (seq!['|'], Style::Plain),
            (first@.subrange(cut as int, first@.len() as int) + seq!['}'], Style::Plain),
        ]);
    }
    let ghost head = spans_view(v@);
    let ghost items = strings_view(shown@).drop_first();
    let ghost goal = hint_spans(typed@, strings_view(shown@), cols as int);
    assert(head =~= seq![(frame_bottom(), Style::Frame)] + lead_spans(typed@, first@));
    let limit = cols as usize;
    let mut x = clamped_width(&v, limit);
    proof {
        if width(head) >= limit {
            lemma_tail_clamped(items, width(head), x as int, cols as int);
        }
        assert(items.skip(0) =~= items);
    }
    let mut i: usize = 1;
    while i < shown.len()
        invariant
            1 <= i <= shown.len(),
            items == strings_view(shown@).drop_first(),
            goal == hint_spans(typed@, strings_view(shown@), cols as int),
            x <= limit,
            limit == cols,
            spans_view(v@) + tail_spans(items.skip(i - 1), x as int, cols as int) == goal,
        decreases shown.len() - i,
    {
        let ghost before = spans_view(v@);
        proof {
            reveal_strlit(" | ");
            assert(" | "@ =~= separator());
        }
        let mut s = " | ".to_owned();
        s.append(shown[i].as_str());
        let n = s.as_str().unicode_len();
        assert(items.skip(i - 1)[0] == shown@[i as int]@);
        assert(s@ == separator() + items.skip(i - 1)[0]);
        if x >= limit || n >= limit - x {
            assert(tail_spans(items.skip(i - 1), x as int, cols as int) == Seq::<(Seq<char>, Style)>::empty());
            assert(spans_view(v@) + Seq::<(Seq<char>, Style)>::empty() =~= spans_view(v@));
            return v;
        }
        v.push(span(s, Style::Dim));
        x = x + n;
        proof {
            assert(spans_view(v@) =~= before.push((s@, Style::Dim)));
            assert(items.skip(i - 1).drop_first() =~= items.skip(i as int));
            assert(tail_spans(items.skip(i - 1), (x - n) as int, cols as int)
                == seq![(s@, Style::Dim)] + tail_spans(items.skip(i as int), x as int, cols as int));
            assert(before + tail_spans(items.skip(i - 1), (x - n) as int, cols as int)
                =~= spans_view(v@) + tail_spans(items.skip(i as int), x as int, cols as int));
        }
        i = i + 1;
    }
    assert(items.skip(i - 1) =~= Seq::<Seq<char>>::empty());
    assert(spans_view(v@) + Seq::<(Seq<char>, Style)>::empty() =~= spans_view(v@));
    v
}

/// The first line of the prompt: the frame, the user, the branch where there
/// is one, the prompt sign and the typed text.
pub open spec fn prompt_spans(user: Seq<char>, branch: Seq<char>, typed: Seq<char>) -> Seq<
    (Seq<char>, Style),
> {
    let head = seq![(seq!['╠', '┈'], Style::Frame), (seq!['«'] + user + seq!['»'], Style::Name)];
    let git = if branch.len() > 0 {
        seq![
            (seq!['┈', 'G', 'i', 't', '('], Style::Marker),
            (branch, Style::Name),
            (seq![')'], Style::Marker),
        ]
    } else {
        Seq::empty()
    };
    head + git + seq![(seq!['∑', '◈', ' '], Style::Plain), (typed, Style::Plain)]
}

/// The first line of the prompt for `user`, on `branch` (empty where there
/// is none), with `typed` the text typed so far.
pub fn prompt_line(user: &str, branch: &str, typed: &str) -> (r: Vec<Span>)
    ensures
        spans_view(r@) == prompt_spans(user@, branch@, typed@),
{
    proof {
        reveal_strlit("╠┈");
        reveal_strlit("«");
        reveal_strlit("»");
        reveal_strlit("┈Git(");
        reveal_strlit(")");
        reveal_strlit("∑◈ ");
        assert("╠┈"@ =~= seq!['╠', '┈']);
        assert("«"@ =~= seq!['«']);
        assert("»"@ =~= seq!['»']);
        assert("┈Git("@ =~= seq!['┈', 'G', 'i', 't', '(']);
        assert(")"@ =~= seq![')']);
        assert("∑◈ "@ =~= seq!['∑', '◈', ' ']);
    }
    let mut v: Vec<Span> = Vec::new();
    v.push(span("╠┈".to_owned(), Style::Frame));
    let mut who = "«".to_owned();
    who.append(user);
    who.append("»");
    v.push(span(who, Style::Name));
    let ghost head = spans_view(v@);
    assert(head =~= seq![(seq!['╠', '┈'], Style::Frame), (seq!['«'] + user@ + seq!['»'], Style::Name)]);
    if !branch.is_empty() {
        v.push(span("┈Git(".to_owned(), Style::Marker));
        v.push(span(branch.to_owned(), Style::Name));
        v.push(span(")".to_owned(), Style::Marker));
    }
    v.push(span("∑◈ ".to_owned(), Style::Plain));
    v.push(span(typed.to_owned(), Style::Plain));
    assert(spans_view(v@) =~= prompt_spans(user@, branch@, typed@));
    v
}

/// The line above the prompt: the frame, the working directory's name, and a
/// rule to the edge of a terminal `cols` columns wide.
pub open spec fn top_bar_text(dir_name: Seq<char>, cols: int) -> Seq<char> {
    let rule = if cols - dir_name.len() - 4 > 0 {
        cols - dir_name.len() - 4
    } else {
        0
    };
    seq!['╔', '┈'] + dir_name + seq!['/', '┈'] + Seq::new(rule as nat, |i: int| '═')
}

/// The line above the prompt for the directory named `dir_name`.
pub fn top_bar(dir_name: &str, cols: u16) -> (r: String)
    ensures
        r@ == top_bar_text(dir_name@, cols as int),
{
    proof {
        reveal_strlit("╔┈");
        reveal_strlit("/┈");
        assert("╔┈"@ =~= seq!['╔', '┈']);
        assert("/┈"@ =~= seq!['/', '┈']);
    }
    let mut r = "╔┈".to_owned();
    r.append(dir_name);
    r.append("/┈");
    let n = dir_name.unicode_len();
    let rule: usize = if (cols as usize) > n && (cols as usize) - n > 4 {
        (cols as usize) - n - 4
    } else {
        0
    };
    let ghost base = r@;
    let mut i: usize = 0;
    while i < rule
        invariant
            i <= rule,
            r@ == base + Seq::new(i as nat, |j: int| '═'),
        decreases rule - i,
    {
        r.push('═');
        assert(Seq::new((i + 1) as nat, |j: int| '═') =~= Seq::new(i as nat, |j: int| '═').push('═'));
        i = i + 1;
    }
    assert(r@ =~= top_bar_text(dir_name@, cols as int));
    r
}

} // verus!

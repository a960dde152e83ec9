//! White space between the words and marks of a type.
use vstd::prelude::*;

use crate::text::chars_of;

verus! {

/// ASCII white space.
pub open spec fn is_space(c: char) -> bool {
    c == ' ' || c == '\t' || c == '\n' || c == '\r' || c == '\u{c}'
}

/// A mark between the words of a type.
pub open spec fn is_mark(c: char) -> bool {
    c == '<' || c == '>' || c == ',' || c == ':'
}

/// Two characters that white space between them holds apart: parts of words, which would become
/// one word, and colons, which would become one `::`.
pub open spec fn held_apart(before: Option<char>, after: Option<char>) -> bool {
    match (before, after) {
        (Some(a), Some(b)) => (!is_mark(a) && !is_mark(b)) || (a == ':' && b == ':'),
        _ => false,
    }
}

/// The last character that is no white space, among the first `n`.
pub open spec fn solid_before(text: Seq<char>, n: int) -> Option<char>
    decreases n,
{
    if n <= 0 {
        None
    } else if is_space(text[n - 1]) {
        solid_before(text, n - 1)
    } else {
        Some(text[n - 1])
    }
}

/// The first character that is no white space, from position `n` on.
pub open spec fn solid_from(text: Seq<char>, n: int) -> Option<char>
    decreases text.len() - n,
{
    if n >= text.len() {
        None
    } else if is_space(text[n]) {
        solid_from(text, n + 1)
    } else {
        Some(text[n])
    }
}

/// The character at a position is no white space, or holds its neighbours apart.
pub open spec fn counts(text: Seq<char>, i: int) -> bool {
    !is_space(text[i]) || held_apart(solid_before(text, i), solid_from(text, i))
}

/// The characters that count, among the first `n`.
pub open spec fn compact_prefix(text: Seq<char>, n: int) -> Seq<char>
    decreases n,
{
    if n <= 0 {
        Seq::empty()
    } else if counts(text, n - 1) {
        compact_prefix(text, n - 1).push(text[n - 1])
    } else {
        compact_prefix(text, n - 1)
    }
}

/// `text` without the white space that holds nothing apart.
pub open spec fn compact(text: Seq<char>) -> Seq<char> {
    compact_prefix(text, text.len() as int)
}

/// No character is white space.
pub open spec fn spaceless(text: Seq<char>) -> bool {
    forall|i: int| 0 <= i < text.len() ==> !is_space(#[trigger] text[i])
}

/// A text without white space is compact.
pub proof fn law_spaceless_is_compact(text: Seq<char>)
    requires
        spaceless(text),
    ensures
        compact(text) == text,
{
    lemma_spaceless_prefix(text, text.len() as int);
    assert(text.take(text.len() as int) =~= text);
}

proof fn lemma_spaceless_prefix(text: Seq<char>, n: int)
    requires
        spaceless(text),
        0 <= n <= text.len(),
    ensures
        compact_prefix(text, n) == text.take(n),
    decreases n,
{
    if n > 0 {
        lemma_spaceless_prefix(text, n - 1);
        assert(text.take(n) =~= text.take(n - 1).push(text[n - 1]));
    } else {
        assert(text.take(0) =~= Seq::empty());
    }
}

/// Texts without white space stay so together.
pub proof fn lemma_spaceless_together(a: Seq<char>, b: Seq<char>)
    requires
        spaceless(a),
        spaceless(b),
    ensures
        spaceless(a + b),
{
    assert forall|i: int| 0 <= i < (a + b).len() implies !is_space(#[trigger] (a + b)[i]) by {
        if i < a.len() {
            assert((a + b)[i] == a[i]);
        } else {
            assert((a + b)[i] == b[i - a.len()]);
        }
    }
}

fn is_space_char(c: char) -> (space: bool)
    ensures
        space == is_space(c),
{
    c == ' ' || c == '\t' || c == '\n' || c == '\r' || c == '\u{c}'
}

fn is_mark_char(c: char) -> (mark: bool)
    ensures
        mark == is_mark(c),
{
    c == '<' || c == '>' || c == ',' || c == ':'
}

fn are_held_apart(before: Option<char>, after: Option<char>) -> (apart: bool)
    ensures
        apart == held_apart(before, after),
{
    match (before, after) {
        (Some(a), Some(b)) => (!is_mark_char(a) && !is_mark_char(b)) || (a == ':' && b == ':'),
        _ => false,
    }
}

/// For each position, counted from the end, the first character from there on that is no white
/// space.
fn solids_from_end(chars: &Vec<char>) -> (solids: Vec<Option<char>>)
    ensures
        solids@.len() == chars@.len() + 1,
        forall|k: int|
            0 <= k <= chars@.len() ==> #[trigger] solids@[k] == solid_from(
                chars@,
                chars@.len() - k,
            ),
{
    let mut solids: Vec<Option<char>> = Vec::new();
    let mut solid: Option<char> = None;
    solids.push(solid);
    let mut i: usize = chars.len();
    while i > 0
        invariant
            i <= chars@.len(),
            solids@.len() == chars@.len() - i + 1,
            solid == solid_from(chars@, i as int),
            forall|k: int|
                0 <= k < solids@.len() ==> #[trigger] solids@[k] == solid_from(
                    chars@,
                    chars@.len() - k,
                ),
        decreases i,
    {
        i = i - 1;
        if !is_space_char(chars[i]) {
            solid = Some(chars[i]);
        }
        solids.push(solid);
    }
    solids
}

/// Leaves out the white space that holds nothing apart.
pub fn compacted(text: &str) -> (compact_text: String)
    ensures
        compact_text@ == compact(text@),
{
    let chars: Vec<char> = chars_of(text);
    let solids: Vec<Option<char>> = solids_from_end(&chars);
    let mut out: String = String::new();
    let mut before: Option<char> = None;
    assert(out@ =~= Seq::empty());
    let mut i: usize = 0;
    while i < chars.len()
        invariant
            chars@ == text@,
            i <= chars@.len(),
            solids@.len() == chars@.len() + 1,
            forall|k: int|
                0 <= k <= chars@.len() ==> #[trigger] solids@[k] == solid_from(
                    chars@,
                    chars@.len() - k,
                ),
            before == solid_before(chars@, i as int),
            out@ == compact_prefix(chars@, i as int),
        decreases chars@.len() - i,
    {
        let c: char = chars[i];
        if !is_space_char(c) {
            before = Some(c);
            out.push(c);
        } else if are_held_apart(before, solids[chars.len() - i]) {
            out.push(c);
        }
        i = i + 1;
    }
    out
}

/// White space is the space, the tab, the line feed, the form feed and the carriage return.
pub proof fn law_is_space(c: char)
    ensures
        is_space(c) <==> c as u32 == 32 || c as u32 == 9 || c as u32 == 10 || c as u32 == 12
            || c as u32 == 13,
{
}

/// What stands before a place, in a text that another one goes on from.
proof fn lemma_solid_before_in_front(front: Seq<char>, text: Seq<char>, n: int)
    requires
        0 <= n <= front.len() <= text.len(),
        text.take(front.len() as int) == front,
    ensures
        solid_before(text, n) == solid_before(front, n),
    decreases n,
{
    if n > 0 {
        assert(text.take(front.len() as int)[n - 1] == text[n - 1]);
        lemma_solid_before_in_front(front, text, n - 1);
    }
}

/// What stands from a place on, before the last character of the front.
proof fn lemma_solid_from_in_front(front: Seq<char>, text: Seq<char>, n: int)
    requires
        0 <= n < front.len() <= text.len(),
        text.take(front.len() as int) == front,
        !is_space(front.last()),
    ensures
        solid_from(text, n) == solid_from(front, n),
    decreases front.len() - n,
{
    assert(text.take(front.len() as int)[n] == text[n]);
    if n < front.len() - 1 {
        lemma_solid_from_in_front(front, text, n + 1);
    }
}

proof fn lemma_compact_in_front(front: Seq<char>, text: Seq<char>, n: int)
    requires
        0 <= n <= front.len() <= text.len(),
        text.take(front.len() as int) == front,
        front.len() > 0 ==> !is_space(front.last()),
    ensures
        compact_prefix(text, n) == compact_prefix(front, n),
    decreases n,
{
    if n > 0 {
        lemma_compact_in_front(front, text, n - 1);
        lemma_solid_before_in_front(front, text, n - 1);
        lemma_solid_from_in_front(front, text, n - 1);
        assert(text.take(front.len() as int)[n - 1] == text[n - 1]);
    }
}

/// White space after the front, up to a place in it.
proof fn lemma_solid_before_in_space(text: Seq<char>, from: int, n: int)
    requires
        0 <= from <= n <= text.len(),
        forall|i: int| from <= i < n ==> is_space(#[trigger] text[i]),
        from > 0 ==> !is_space(text[from - 1]),
    ensures
        solid_before(text, n) == if from > 0 {
            Some(text[from - 1])
        } else {
            None
        },
    decreases n,
{
    if n > from {
        assert(is_space(text[n - 1]));
        lemma_solid_before_in_space(text, from, n - 1);
    }
}

/// White space from a place on, up to the back.
proof fn lemma_solid_from_in_space(text: Seq<char>, n: int, to: int)
    requires
        0 <= n <= to <= text.len(),
        forall|i: int| n <= i < to ==> is_space(#[trigger] text[i]),
        to < text.len() ==> !is_space(text[to]),
    ensures
        solid_from(text, n) == if to < text.len() {
            Some(text[to])
        } else {
            None
        },
    decreases to - n,
{
    if n < to {
        assert(is_space(text[n]));
        lemma_solid_from_in_space(text, n + 1, to);
    }
}

proof fn lemma_compact_in_space(text: Seq<char>, from: int, to: int, n: int)
    requires
        0 <= from <= n <= to <= text.len(),
        forall|i: int| from <= i < to ==> is_space(#[trigger] text[i]),
        from > 0 ==> !is_space(text[from - 1]),
        to < text.len() ==> !is_space(text[to]),
    ensures
        ({
            let before = if from > 0 {
                Some(text[from - 1])
            } else {
                None
            };
            let after = if to < text.len() {
                Some(text[to])
            } else {
                None
            };
            compact_prefix(text, n) == compact_prefix(text, from) + if held_apart(before, after) {
                text.subrange(from, n)
            } else {
                Seq::empty()
            }
        }),
    decreases n - from,
{
    if n > from {
        lemma_compact_in_space(text, from, to, n - 1);
        lemma_solid_before_in_space(text, from, n - 1);
        lemma_solid_from_in_space(text, n - 1, to);
        assert(is_space(text[n - 1]));
        assert(text.subrange(from, n) =~= text.subrange(from, n - 1).push(text[n - 1]));
    }
    let before = if from > 0 {
        Some(text[from - 1])
    } else {
        None
    };
    let after = if to < text.len() {
        Some(text[to])
    } else {
        None
    };
    assert(compact_prefix(text, n) =~= compact_prefix(text, from) + if held_apart(before, after) {
        text.subrange(from, n)
    } else {
        Seq::empty()
    });
}

/// What stands before a place in the back.
proof fn lemma_solid_before_in_back(text: Seq<char>, back: Seq<char>, at: int, n: int)
    requires
        0 <= at,
        at + back.len() == text.len(),
        text.skip(at) == back,
        1 <= n <= back.len(),
        !is_space(back[0]),
    ensures
        solid_before(text, at + n) == solid_before(back, n),
    decreases n,
{
    assert(text.skip(at)[n - 1] == text[at + n - 1]);
    if n > 1 {
        lemma_solid_before_in_back(text, back, at, n - 1);
    }
}

/// What stands from a place in the back on.
proof fn lemma_solid_from_in_back(text: Seq<char>, back: Seq<char>, at: int, n: int)
    requires
        0 <= at,
        at + back.len() == text.len(),
        text.skip(at) == back,
        0 <= n <= back.len(),
    ensures
        solid_from(text, at + n) == solid_from(back, n),
    decreases back.len() - n,
{
    if n < back.len() {
        assert(text.skip(at)[n] == text[at + n]);
        lemma_solid_from_in_back(text, back, at, n + 1);
    }
}

proof fn lemma_compact_in_back(text: Seq<char>, back: Seq<char>, at: int, n: int)
    requires
        0 <= at,
        at + back.len() == text.len(),
        text.skip(at) == back,
        0 <= n <= back.len(),
        back.len() > 0 ==> !is_space(back[0]),
    ensures
        compact_prefix(text, at + n) == compact_prefix(text, at) + compact_prefix(back, n),
    decreases n,
{
    if n > 0 {
        lemma_compact_in_back(text, back, at, n - 1);
        assert(text.skip(at)[n - 1] == text[at + n - 1]);
        if n > 1 {
            lemma_solid_before_in_back(text, back, at, n - 1);
            lemma_solid_from_in_back(text, back, at, n - 1);
        }
    }
    assert(compact_prefix(text, at + n) =~= compact_prefix(text, at) + compact_prefix(back, n));
}

/// White space between two texts, the first of which does not end with white space and the second of
/// which does not begin with it, stays as it is where it holds two words or two colons apart.
/// Elsewhere it goes, and so does white space at either end. The two texts are made compact each for
/// itself.
pub proof fn law_compact_parts(front: Seq<char>, space: Seq<char>, back: Seq<char>)
    requires
        front.len() > 0 ==> !is_space(front.last()),
        back.len() > 0 ==> !is_space(back[0]),
        forall|i: int| 0 <= i < space.len() ==> is_space(#[trigger] space[i]),
    ensures
        ({
            let a = front.last();
            let b = back[0];
            let a_marks = a == '<' || a == '>' || a == ',' || a == ':';
            let b_marks = b == '<' || b == '>' || b == ',' || b == ':';
            let stays = front.len() > 0 && back.len() > 0 && ((!a_marks && !b_marks) || (a == ':'
                && b == ':'));
            compact(front + space + back) == compact(front) + if stays {
                space
            } else {
                Seq::empty()
            } + compact(back)
        }),
{
    let text = front + space + back;
    let from = front.len() as int;
    let to = from + space.len();
    assert(text.take(from) =~= front);
    assert(text.skip(to) =~= back);
    assert forall|i: int| from <= i < to implies is_space(#[trigger] text[i]) by {
        assert(text[i] == space[i - from]);
    }
    assert(text.subrange(from, to) =~= space);
    if from > 0 {
        assert(text[from - 1] == front.last());
    }
    if to < text.len() {
        assert(text[to] == back[0]);
    }
    lemma_compact_in_front(front, text, from);
    lemma_compact_in_space(text, from, to, to);
    lemma_compact_in_back(text, back, to, back.len() as int);
}

} // verus!

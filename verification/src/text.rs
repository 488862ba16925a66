//! Substring search and splicing over character sequences.
//!
//! Every edit in this crate is phrased over `Seq<char>`, the view of a
//! `String`. Positions are counted in characters, never in bytes.
use vstd::prelude::*;
use vstd::string::*;

verus! {

/// The view of a text that may be missing, such as the content of a file
/// that need not exist.
pub open spec fn text_of(text: Option<String>) -> Option<Seq<char>> {
    match text {
        Some(t) => Some(t@),
        None => None,
    }
}

/// The view of a borrowed text that may be missing.
pub open spec fn view_of(text: Option<&str>) -> Option<Seq<char>> {
    match text {
        Some(t) => Some(t@),
        None => None,
    }
}

/// `pattern` stands in `text` at character position `at`.
pub open spec fn occurs_at(text: Seq<char>, pattern: Seq<char>, at: int) -> bool {
    &&& 0 <= at
    &&& at + pattern.len() <= text.len()
    &&& text.subrange(at, at + pattern.len()) == pattern
}

/// `pattern` stands somewhere in `text`. The empty pattern stands everywhere.
pub open spec fn occurs_in(text: Seq<char>, pattern: Seq<char>) -> bool {
    exists|at: int| occurs_at(text, pattern, at)
}

/// `at` is the leftmost position at which `pattern` stands in `text`.
pub open spec fn first_at(text: Seq<char>, pattern: Seq<char>, at: int) -> bool {
    &&& occurs_at(text, pattern, at)
    &&& forall|j: int| 0 <= j < at ==> !occurs_at(text, pattern, j)
}

/// The leftmost position of `pattern` in `text`, if it stands there at all.
pub open spec fn index_of(text: Seq<char>, pattern: Seq<char>) -> Option<int> {
    if occurs_in(text, pattern) {
        Some(choose|at: int| first_at(text, pattern, at))
    } else {
        None
    }
}

/// `pattern` stands in `text` at exactly one position.
pub open spec fn occurs_once(text: Seq<char>, pattern: Seq<char>) -> bool {
    exists|at: int| only_at(text, pattern, at)
}

/// `pattern` stands in `text` at `at` and nowhere else.
pub open spec fn only_at(text: Seq<char>, pattern: Seq<char>, at: int) -> bool {
    &&& occurs_at(text, pattern, at)
    &&& forall|j: int| occurs_at(text, pattern, j) ==> j == at
}

/// `text` with `fragment` spliced in before position `at`.
pub open spec fn inserted(text: Seq<char>, at: int, fragment: Seq<char>) -> Seq<char> {
    text.subrange(0, at) + fragment + text.subrange(at, text.len() as int)
}

/// `text` with the characters in `start..end` exchanged for `with`.
pub open spec fn replaced_range(text: Seq<char>, start: int, end: int, with: Seq<char>) -> Seq<
    char,
> {
    text.subrange(0, start) + with + text.subrange(end, text.len() as int)
}

/// `text` with every occurrence of `from` exchanged for `to`, scanning from
/// the left and never re-reading what was already consumed. An empty `from`
/// matches nowhere.
pub open spec fn replaced_all(text: Seq<char>, from: Seq<char>, to: Seq<char>) -> Seq<char>
    decreases text.len(),
{
    if from.len() == 0 || text.len() < from.len() {
        text
    } else if occurs_at(text, from, 0) {
        to + replaced_all(text.subrange(from.len() as int, text.len() as int), from, to)
    } else {
        seq![text[0]] + replaced_all(text.subrange(1, text.len() as int), from, to)
    }
}

/// A leftmost occurrence is the one that `index_of` names.
pub proof fn lemma_first_at_is_index_of(text: Seq<char>, pattern: Seq<char>, at: int)
    requires
        first_at(text, pattern, at),
    ensures
        index_of(text, pattern) == Some(at),
{
    let c = choose|c: int| first_at(text, pattern, c);
    assert(first_at(text, pattern, c));
    if c < at {
        assert(!occurs_at(text, pattern, c));
    }
    if at < c {
        assert(!occurs_at(text, pattern, at));
    }
}

/// Where `pattern` stands in `text`, `index_of` names its leftmost position.
pub proof fn lemma_index_of_is_first(text: Seq<char>, pattern: Seq<char>)
    requires
        occurs_in(text, pattern),
    ensures
        index_of(text, pattern) is Some,
        first_at(text, pattern, index_of(text, pattern).unwrap()),
{
    let w = choose|at: int| occurs_at(text, pattern, at);
    lemma_least_occurrence(text, pattern, w);
}

/// Below any occurrence there is a leftmost one.
proof fn lemma_least_occurrence(text: Seq<char>, pattern: Seq<char>, at: int)
    requires
        occurs_at(text, pattern, at),
    ensures
        exists|first: int| first_at(text, pattern, first) && first <= at,
    decreases at,
{
    if exists|j: int| 0 <= j < at && occurs_at(text, pattern, j) {
        let j = choose|j: int| 0 <= j < at && occurs_at(text, pattern, j);
        lemma_least_occurrence(text, pattern, j);
    } else {
        assert(first_at(text, pattern, at));
    }
}

/// An occurrence in a suffix of `text` is an occurrence in `text`, shifted.
pub proof fn lemma_occurs_at_suffix(text: Seq<char>, pattern: Seq<char>, from: int, at: int)
    requires
        0 <= from <= text.len(),
        0 <= at,
    ensures
        occurs_at(text.subrange(from, text.len() as int), pattern, at) == occurs_at(
            text,
            pattern,
            from + at,
        ),
{
    let tail = text.subrange(from, text.len() as int);
    if at + pattern.len() <= tail.len() {
        assert(tail.subrange(at, at + pattern.len()) =~= text.subrange(
            from + at,
            from + at + pattern.len(),
        ));
    }
}

/// Where `from` stands nowhere in `text`, replacing it changes nothing.
pub proof fn lemma_replaced_all_absent(text: Seq<char>, from: Seq<char>, to: Seq<char>)
    requires
        forall|j: int| 0 <= j ==> !occurs_at(text, from, j),
    ensures
        replaced_all(text, from, to) == text,
    decreases text.len(),
{
    if from.len() == 0 || text.len() < from.len() {
    } else {
        assert(!occurs_at(text, from, 0));
        let rest = text.subrange(1, text.len() as int);
        assert forall|j: int| 0 <= j implies !occurs_at(rest, from, j) by {
            lemma_occurs_at_suffix(text, from, 1, j);
        }
        lemma_replaced_all_absent(rest, from, to);
        assert(seq![text[0]] + rest =~= text);
    }
}

/// Up to the leftmost occurrence of `from` the text is kept; the occurrence
/// becomes `to`, and replacing goes on behind it.
pub proof fn lemma_replaced_all_first(text: Seq<char>, from: Seq<char>, to: Seq<char>, at: int)
    requires
        from.len() > 0,
        first_at(text, from, at),
    ensures
        replaced_all(text, from, to) == text.subrange(0, at) + to + replaced_all(
            text.subrange(at + from.len(), text.len() as int),
            from,
            to,
        ),
    decreases at,
{
    if at == 0 {
        assert(text.subrange(0, 0) + to =~= to);
    } else {
        assert(!occurs_at(text, from, 0));
        let rest = text.subrange(1, text.len() as int);
        assert forall|j: int| 0 <= j < at - 1 implies !occurs_at(rest, from, j) by {
            lemma_occurs_at_suffix(text, from, 1, j);
        }
        lemma_occurs_at_suffix(text, from, 1, at - 1);
        lemma_replaced_all_first(rest, from, to, at - 1);
        assert(rest.subrange(at - 1 + from.len(), rest.len() as int) =~= text.subrange(
            at + from.len(),
            text.len() as int,
        ));
        assert(seq![text[0]] + rest.subrange(0, at - 1) =~= text.subrange(0, at));
        let tail = replaced_all(text.subrange(at + from.len(), text.len() as int), from, to);
        assert(seq![text[0]] + (rest.subrange(0, at - 1) + to + tail) =~= text.subrange(0, at) + to
            + tail);
    }
}

/// Taking every occurrence of `from` out of a text does not make it longer.
pub proof fn lemma_removal_keeps_length(text: Seq<char>, from: Seq<char>)
    ensures
        replaced_all(text, from, Seq::empty()).len() <= text.len(),
    decreases text.len(),
{
    if from.len() == 0 || text.len() < from.len() {
    } else if occurs_at(text, from, 0) {
        lemma_removal_keeps_length(text.subrange(from.len() as int, text.len() as int), from);
    } else {
        lemma_removal_keeps_length(text.subrange(1, text.len() as int), from);
    }
}

/// Taking every occurrence of a text that is not empty out of a text that
/// holds it makes that text shorter.
pub proof fn lemma_removal_shrinks(text: Seq<char>, from: Seq<char>)
    requires
        from.len() > 0,
        occurs_in(text, from),
    ensures
        replaced_all(text, from, Seq::empty()).len() < text.len(),
{
    lemma_index_of_is_first(text, from);
    let at = index_of(text, from).unwrap();
    lemma_replaced_all_first(text, from, Seq::empty(), at);
    lemma_removal_keeps_length(text.subrange(at + from.len(), text.len() as int), from);
}

/// Splicing a fragment that holds `pattern` once into a text that holds it
/// nowhere leaves it exactly once, where no occurrence can reach over an
/// edge of the fragment: its first and its last character are not in
/// `pattern`.
#[verifier::rlimit(40)]
pub proof fn lemma_inserted_once(
    text: Seq<char>,
    at: int,
    fragment: Seq<char>,
    pattern: Seq<char>,
)
    requires
        0 <= at <= text.len(),
        !occurs_in(text, pattern),
        occurs_once(fragment, pattern),
        fragment.len() > 0,
        !pattern.contains(fragment.first()),
        !pattern.contains(fragment.last()),
    ensures
        occurs_once(inserted(text, at, fragment), pattern),
{
    let out = inserted(text, at, fragment);
    let inner = choose|inner: int| only_at(fragment, pattern, inner);
    let width = pattern.len() as int;
    let span = fragment.len() as int;
    assert(out.subrange(at + inner, at + inner + width) =~= fragment.subrange(
        inner,
        inner + width,
    ));
    assert forall|j: int| occurs_at(out, pattern, j) implies j == at + inner by {
        let window = out.subrange(j, j + width);
        if j + width <= at {
            assert(text.subrange(j, j + width) =~= window);
            assert(occurs_at(text, pattern, j));
        } else if j < at {
            assert(window[at - j] == fragment.first());
            assert(pattern[at - j] == fragment.first());
        } else if j >= at + span {
            assert(text.subrange(j - span, j - span + width) =~= window);
            assert(occurs_at(text, pattern, j - span));
        } else if j + width <= at + span {
            assert(fragment.subrange(j - at, j - at + width) =~= window);
            assert(occurs_at(fragment, pattern, j - at));
        } else {
            assert(window[at + span - 1 - j] == fragment.last());
            assert(pattern[at + span - 1 - j] == fragment.last());
        }
    }
    assert(only_at(out, pattern, at + inner));
}

/// A text that holds `pattern` once, put in front of one that holds it
/// nowhere, leaves it exactly once in the whole, where no occurrence can
/// reach over the seam: the last character in front is not in `pattern`.
#[verifier::rlimit(40)]
pub proof fn lemma_prefixed_once(front: Seq<char>, rest: Seq<char>, pattern: Seq<char>)
    requires
        occurs_once(front, pattern),
        !occurs_in(rest, pattern),
        front.len() > 0,
        !pattern.contains(front.last()),
    ensures
        occurs_once(front + rest, pattern),
{
    let out = front + rest;
    let inner = choose|inner: int| only_at(front, pattern, inner);
    let width = pattern.len() as int;
    let span = front.len() as int;
    assert(out.subrange(inner, inner + width) =~= front.subrange(inner, inner + width));
    assert forall|j: int| occurs_at(out, pattern, j) implies j == inner by {
        let window = out.subrange(j, j + width);
        if j >= span {
            assert(rest.subrange(j - span, j - span + width) =~= window);
            assert(occurs_at(rest, pattern, j - span));
        } else if j + width <= span {
            assert(front.subrange(j, j + width) =~= window);
            assert(occurs_at(front, pattern, j));
        } else {
            assert(window[span - 1 - j] == front.last());
            assert(pattern[span - 1 - j] == front.last());
        }
    }
    assert(only_at(out, pattern, inner));
}

/// The characters of `s`, one element each.
pub fn to_chars(s: &str) -> (out: Vec<char>)
    ensures
        out@ == s@,
{
    let mut out: Vec<char> = Vec::new();
    for c in it: s.chars()
        invariant
            it.seq() == s@,
            out@ == it.seq().subrange(0, it.index() as int),
    {
        out.push(c);
    }
    assert(out@ == s@);
    out
}

/// Does `pattern` stand in `text` at `at`?
pub fn matches_at(text: &Vec<char>, pattern: &Vec<char>, at: usize) -> (hit: bool)
    ensures
        hit == occurs_at(text@, pattern@, at as int),
{
    if pattern.len() > text.len() || at > text.len() - pattern.len() {
        return false;
    }
    let mut k: usize = 0;
    while k < pattern.len()
        invariant
            k <= pattern.len(),
            at + pattern.len() <= text.len(),
            forall|j: int| 0 <= j < k ==> text@[at + j] == pattern@[j],
        decreases pattern.len() - k,
    {
        if text[at + k] != pattern[k] {
            proof {
                let window = text@.subrange(at as int, at + pattern.len());
                assert(window[k as int] == text@[at + k]);
            }
            return false;
        }
        k = k + 1;
    }
    assert(text@.subrange(at as int, at + pattern.len()) =~= pattern@);
    true
}

/// The leftmost position at or after `start` where `pattern` stands.
pub fn find_from(text: &Vec<char>, pattern: &Vec<char>, start: usize) -> (found: Option<usize>)
    ensures
        match found {
            Some(at) => {
                &&& start <= at
                &&& occurs_at(text@, pattern@, at as int)
                &&& forall|j: int| start <= j < at ==> !occurs_at(text@, pattern@, j)
            },
            None => forall|j: int| start <= j ==> !occurs_at(text@, pattern@, j),
        },
{
    if pattern.len() > text.len() || start > text.len() - pattern.len() {
        return None;
    }
    let last: usize = text.len() - pattern.len();
    let mut at: usize = start;
    loop
        invariant
            start <= at <= last,
            last == text.len() - pattern.len(),
            forall|j: int| start <= j < at ==> !occurs_at(text@, pattern@, j),
        decreases last - at,
    {
        if matches_at(text, pattern, at) {
            return Some(at);
        }
        if at == last {
            return None;
        }
        at = at + 1;
    }
}

/// The leftmost position where `pattern` stands in `text`.
pub fn find(text: &str, pattern: &str) -> (found: Option<usize>)
    ensures
        found.is_some() == occurs_in(text@, pattern@),
        found matches Some(at) ==> first_at(text@, pattern@, at as int),
        match found {
            Some(at) => index_of(text@, pattern@) == Some(at as int),
            None => index_of(text@, pattern@) is None,
        },
{
    let t = to_chars(text);
    let p = to_chars(pattern);
    let found = find_from(&t, &p, 0);
    proof {
        if let Some(at) = found {
            lemma_first_at_is_index_of(text@, pattern@, at as int);
        }
    }
    found
}

/// Does `pattern` stand anywhere in `text`?
pub fn contains(text: &str, pattern: &str) -> (hit: bool)
    ensures
        hit == occurs_in(text@, pattern@),
{
    find(text, pattern).is_some()
}

/// Are the two strings the same characters?
pub fn same_text(a: &str, b: &str) -> (same: bool)
    ensures
        same == (a@ == b@),
{
    let x = to_chars(a);
    let y = to_chars(b);
    if x.len() != y.len() {
        return false;
    }
    let hit = matches_at(&x, &y, 0);
    proof {
        assert(x@.subrange(0, x@.len() as int) =~= x@);
    }
    hit
}

/// `text` with `fragment` spliced in before character position `at`.
pub fn insert_at(text: &str, at: usize, fragment: &str) -> (out: String)
    requires
        at <= text@.len(),
    ensures
        out@ == inserted(text@, at as int, fragment@),
{
    let n = text.unicode_len();
    let mut out = String::from_str(text.substring_char(0, at));
    out.append(fragment);
    out.append(text.substring_char(at, n));
    out
}

/// `text` with the characters in `start..end` exchanged for `with`.
pub fn replace_range(text: &str, start: usize, end: usize, with: &str) -> (out: String)
    requires
        start <= end <= text@.len(),
    ensures
        out@ == replaced_range(text@, start as int, end as int, with@),
{
    let n = text.unicode_len();
    let mut out = String::from_str(text.substring_char(0, start));
    out.append(with);
    out.append(text.substring_char(end, n));
    out
}

/// `text` with every occurrence of `from` exchanged for `to`.
pub fn replace_all(text: &str, from: &str, to: &str) -> (out: String)
    ensures
        out@ == replaced_all(text@, from@, to@),
{
    let t = to_chars(text);
    let f = to_chars(from);
    let n: usize = t.len();
    if f.len() == 0 {
        return String::from_str(text);
    }
    let mut out = String::new();
    let mut pos: usize = 0;
    proof {
        assert(text@.subrange(0, n as int) =~= text@);
        assert(out@ + replaced_all(text@, from@, to@) =~= replaced_all(text@, from@, to@));
    }
    loop
        invariant
            t@ == text@,
            f@ == from@,
            n == t.len(),
            f.len() > 0,
            pos <= n,
            out@ + replaced_all(text@.subrange(pos as int, n as int), from@, to@) == replaced_all(
                text@,
                from@,
                to@,
            ),
        decreases n - pos,
    {
        let ghost rest = text@.subrange(pos as int, n as int);
        match find_from(&t, &f, pos) {
            Some(at) => {
                proof {
                    assert forall|j: int| 0 <= j < at - pos implies !occurs_at(rest, from@, j) by {
                        lemma_occurs_at_suffix(text@, from@, pos as int, j);
                    }
                    lemma_occurs_at_suffix(text@, from@, pos as int, at - pos);
                    lemma_replaced_all_first(rest, from@, to@, at - pos);
                    assert(rest.subrange(0, at - pos) =~= text@.subrange(pos as int, at as int));
                    assert(rest.subrange(at - pos + from@.len(), rest.len() as int)
                        =~= text@.subrange(at + from@.len(), n as int));
                }
                let ghost before = out@;
                let ghost kept = text@.subrange(pos as int, at as int);
                out.append(text.substring_char(pos, at));
                out.append(to);
                pos = at + f.len();
                proof {
                    let tail = replaced_all(text@.subrange(pos as int, n as int), from@, to@);
                    assert(out@ + tail =~= before + (kept + to@ + tail));
                }
            },
            None => {
                proof {
                    assert forall|j: int| 0 <= j implies !occurs_at(rest, from@, j) by {
                        lemma_occurs_at_suffix(text@, from@, pos as int, j);
                    }
                    lemma_replaced_all_absent(rest, from@, to@);
                }
                out.append(text.substring_char(pos, n));
                return out;
            },
        }
    }
}

} // verus!

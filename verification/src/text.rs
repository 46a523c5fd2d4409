//! Whitespace-delimited tokens of a response line.

use vstd::prelude::*;

verus! {

broadcast use vstd::string::group_string_axioms;

/// The characters that separate tokens: those with the Unicode `White_Space` property.
pub open spec fn is_whitespace(c: char) -> bool {
    let u = c as u32;
    ||| 0x09 <= u <= 0x0D
    ||| u == 0x20
    ||| u == 0x85
    ||| u == 0xA0
    ||| u == 0x1680
    ||| 0x2000 <= u <= 0x200A
    ||| u == 0x2028
    ||| u == 0x2029
    ||| u == 0x202F
    ||| u == 0x205F
    ||| u == 0x3000
}

/// First position at or after `from` that holds no whitespace; the length of `s` if there is none.
pub open spec fn skip_blank(s: Seq<char>, from: int) -> int
    decreases s.len() - from,
{
    if 0 <= from < s.len() && is_whitespace(s[from]) {
        skip_blank(s, from + 1)
    } else {
        from
    }
}

/// First position at or after `from` that holds whitespace; the length of `s` if there is none.
pub open spec fn skip_word(s: Seq<char>, from: int) -> int
    decreases s.len() - from,
{
    if 0 <= from < s.len() && !is_whitespace(s[from]) {
        skip_word(s, from + 1)
    } else {
        from
    }
}

/// Where the first token at or after `from` begins.
pub open spec fn token_start(s: Seq<char>, from: int) -> int {
    skip_blank(s, from)
}

/// Where the first token at or after `from` ends.
pub open spec fn token_end(s: Seq<char>, from: int) -> int {
    skip_word(s, skip_blank(s, from))
}

/// The first token at or after `from`, if only whitespace does not follow.
pub open spec fn token(s: Seq<char>, from: int) -> Option<Seq<char>> {
    if token_start(s, from) < s.len() {
        Some(s.subrange(token_start(s, from), token_end(s, from)))
    } else {
        None
    }
}

/// The scanners stay inside the line, never move backwards, and stop exactly where the
/// kind of character changes.
pub proof fn lemma_scan(s: Seq<char>, from: int)
    requires
        0 <= from <= s.len(),
    ensures
        from <= skip_blank(s, from) <= s.len(),
        from <= skip_word(s, from) <= s.len(),
        forall|i: int| from <= i < skip_blank(s, from) ==> is_whitespace(#[trigger] s[i]),
        forall|i: int| from <= i < skip_word(s, from) ==> !is_whitespace(#[trigger] s[i]),
        skip_blank(s, from) < s.len() ==> !is_whitespace(s[skip_blank(s, from)]),
        skip_word(s, from) < s.len() ==> is_whitespace(s[skip_word(s, from)]),
    decreases s.len() - from,
{
    if from < s.len() {
        lemma_scan(s, from + 1);
    }
}

/// A token lies inside the line and is never empty.
pub proof fn lemma_token_bounds(s: Seq<char>, from: int)
    requires
        0 <= from <= s.len(),
    ensures
        from <= token_start(s, from) <= token_end(s, from) <= s.len(),
        token(s, from) is Some <==> token_start(s, from) < s.len(),
        token(s, from) is Some ==> token_start(s, from) < token_end(s, from),
        token(s, from) matches Some(t) ==> t.len() > 0 && forall|i: int|
            0 <= i < t.len() ==> !is_whitespace(#[trigger] t[i]),
{
    lemma_scan(s, from);
    lemma_scan(s, skip_blank(s, from));
}

/// A run of whitespace is skipped as a whole.
proof fn lemma_skip_blank_to(s: Seq<char>, from: int, to: int)
    requires
        0 <= from <= to <= s.len(),
        forall|i: int| from <= i < to ==> is_whitespace(#[trigger] s[i]),
        to == s.len() || !is_whitespace(s[to]),
    ensures
        skip_blank(s, from) == to,
    decreases to - from,
{
    if from < to {
        lemma_skip_blank_to(s, from + 1, to);
    }
}

/// A run of other characters is skipped as a whole.
proof fn lemma_skip_word_to(s: Seq<char>, from: int, to: int)
    requires
        0 <= from <= to <= s.len(),
        forall|i: int| from <= i < to ==> !is_whitespace(#[trigger] s[i]),
        to == s.len() || is_whitespace(s[to]),
    ensures
        skip_word(s, from) == to,
    decreases to - from,
{
    if from < to {
        lemma_skip_word_to(s, from + 1, to);
    }
}

/// A token is known by its surroundings: after `from` comes whitespace up to `start`, then
/// no whitespace up to `end`, and there the line ends or whitespace follows.
pub proof fn lemma_token_found(s: Seq<char>, from: int, start: int, end: int)
    requires
        0 <= from <= start < end <= s.len(),
        forall|i: int| from <= i < start ==> is_whitespace(#[trigger] s[i]),
        forall|i: int| start <= i < end ==> !is_whitespace(#[trigger] s[i]),
        end == s.len() || is_whitespace(s[end]),
    ensures
        token_start(s, from) == start,
        token_end(s, from) == end,
        token(s, from) == Some(s.subrange(start, end)),
{
    lemma_skip_blank_to(s, from, start);
    lemma_skip_word_to(s, start, end);
}

/// Where only whitespace follows there is no token.
pub proof fn lemma_no_token(s: Seq<char>, from: int)
    requires
        0 <= from <= s.len(),
        forall|i: int| from <= i < s.len() ==> is_whitespace(#[trigger] s[i]),
    ensures
        token(s, from) is None,
{
    lemma_skip_blank_to(s, from, s.len() as int);
}

/// Whether `c` separates tokens.
pub fn is_whitespace_char(c: char) -> (r: bool)
    ensures
        r == is_whitespace(c),
{
    let u: u32 = c as u32;
    (0x09 <= u && u <= 0x0D) || u == 0x20 || u == 0x85 || u == 0xA0 || u == 0x1680 || (0x2000 <= u
        && u <= 0x200A) || u == 0x2028 || u == 0x2029 || u == 0x202F || u == 0x205F || u == 0x3000
}

/// The characters of `s`, in order.
pub fn chars_of(s: &str) -> (v: Vec<char>)
    ensures
        v@ == s@,
{
    let mut v: Vec<char> = Vec::new();
    for c in it: s.chars()
        invariant
            it.seq() == s@,
            v@ == s@.take(it.index()),
    {
        v.push(c);
    }
    v
}

/// Moves from `from` over whitespace, to the first character of another kind or to the end.
pub fn scan_blank(chars: &Vec<char>, from: usize) -> (to: usize)
    ensures
        to == skip_blank(chars@, from as int),
{
    let mut i: usize = from;
    while i < chars.len() && is_whitespace_char(chars[i])
        invariant
            from <= i,
            i <= chars@.len() || i == from,
            skip_blank(chars@, from as int) == skip_blank(chars@, i as int),
        decreases chars@.len() - i,
    {
        i += 1;
    }
    i
}

/// Moves from `from` over a token, to the first whitespace or to the end.
pub fn scan_word(chars: &Vec<char>, from: usize) -> (to: usize)
    ensures
        to == skip_word(chars@, from as int),
{
    let mut i: usize = from;
    while i < chars.len() && !is_whitespace_char(chars[i])
        invariant
            from <= i,
            i <= chars@.len() || i == from,
            skip_word(chars@, from as int) == skip_word(chars@, i as int),
        decreases chars@.len() - i,
    {
        i += 1;
    }
    i
}

} // verus!

//! Regular expressions as patterns of the substitution engine.
//!
//! The `regex` crate searches UTF-8 text and counts bytes; the engine counts
//! characters. A search therefore hands the text over as a string with the
//! offset of the start in bytes, and takes the span that comes back to
//! characters again. A span that does not lie on character boundaries, or
//! that starts before the start of the search, is no match for the engine.
//! An empty match is none either: the engine replaces what a pattern has
//! matched, so the search goes on from the character after the empty match.
//!
//! The pattern is compiled anew for each search. That keeps what a search
//! finds a function of the source, the text and the start alone.
use crate::failure::MatchRange;
use crate::nesting::span;
use crate::repl::Pattern;
use crate::text::string_from_chars;
use vstd::prelude::*;
use vstd::string::StringSliceAdditionalSpecFns;
use vstd::utf8::{char_is_scalar, encode_scalar, encode_utf8};

verus! {

/// Whether `regex::Regex::new` accepts `pattern`.
pub uninterp spec fn regex_compiles(pattern: Seq<char>) -> bool;

/// What `regex::Regex::find_at` finds for the regular expression `pattern`
/// in `text` from the byte offset `start` on: the byte offsets of the
/// leftmost match, if there is one. Nothing is found for a pattern that does
/// not compile.
pub uninterp spec fn regex_found(pattern: Seq<char>, text: Seq<char>, start: int) -> Option<
    (int, int),
>;

/// `regex::Regex::new`: whether `pattern` is a regular expression that the
/// crate accepts.
#[verifier::external_body]
fn regex_is_valid(pattern: &str) -> (b: bool)
    ensures
        b == regex_compiles(pattern@),
{
    regex::Regex::new(pattern).is_ok()
}

/// `regex::Regex::new` and `regex::Regex::find_at`: the byte offsets of the
/// leftmost match of `pattern` in `text` that starts at or after the byte
/// offset `start`. The result is a function of the three arguments. An
/// offset beyond the end of the text, on which the search would panic, is
/// left out.
#[verifier::external_body]
fn regex_find_at(pattern: &str, text: &str, start: usize) -> (r: Option<(usize, usize)>)
    requires
        start <= text.spec_bytes().len(),
    ensures
        match r {
            Some((s, e)) => regex_found(pattern@, text@, start as int) == Some((s as int, e as int)),
            None => regex_found(pattern@, text@, start as int) is None,
        },
{
    match regex::Regex::new(pattern) {
        Ok(re) => match re.find_at(text, start) {
            Some(m) => Some((m.start(), m.end())),
            None => None,
        },
        Err(_) => None,
    }
}

/// The number of bytes of `c` in UTF-8.
pub open spec fn width(c: char) -> int {
    let v = c as u32;
    if v <= 0x7F {
        1
    } else if v <= 0x7FF {
        2
    } else if v <= 0xFFFF {
        3
    } else {
        4
    }
}

/// The number of bytes of `s` in UTF-8.
pub open spec fn byte_len(s: Seq<char>) -> int
    decreases s.len(),
{
    if s.len() == 0 {
        0
    } else {
        byte_len(s.drop_last()) + width(s.last())
    }
}

proof fn lemma_encode_push(s: Seq<char>, c: char)
    ensures
        encode_utf8(s.push(c)) == encode_utf8(s) + encode_scalar(c as u32),
    decreases s.len(),
{
    if s.len() == 0 {
        let one = s.push(c);
        assert(encode_utf8(one) =~= encode_scalar(c as u32) + encode_utf8(one.drop_first()));
    } else {
        assert(s.push(c).drop_first() =~= s.drop_first().push(c));
        lemma_encode_push(s.drop_first(), c);
    }
}

/// `byte_len` is the length of the UTF-8 encoding.
pub proof fn lemma_byte_len(s: Seq<char>)
    ensures
        byte_len(s) == encode_utf8(s).len(),
    decreases s.len(),
{
    if s.len() > 0 {
        lemma_byte_len(s.drop_last());
        lemma_encode_push(s.drop_last(), s.last());
        assert(s.drop_last().push(s.last()) =~= s);
        char_is_scalar(s.last());
    }
}

/// A longer prefix has more bytes.
proof fn lemma_byte_len_grows(s: Seq<char>, i: int, j: int)
    requires
        0 <= i <= j <= s.len(),
    ensures
        byte_len(s.take(i)) + (j - i) <= byte_len(s.take(j)),
    decreases j - i,
{
    if i < j {
        lemma_byte_len_grows(s, i, j - 1);
        assert(s.take(j).drop_last() =~= s.take(j - 1));
    }
}

/// The index of the character that starts at the byte offset `b`, searched
/// from the index `from` on.
pub open spec fn char_index(text: Seq<char>, b: int, from: int) -> Option<int>
    decreases text.len() + 1 - from,
{
    if from < 0 || from > text.len() || byte_len(text.take(from)) > b {
        None
    } else if byte_len(text.take(from)) == b {
        Some(from)
    } else {
        char_index(text, b, from + 1)
    }
}

proof fn lemma_char_index(text: Seq<char>, b: int, from: int)
    requires
        0 <= from,
    ensures
        char_index(text, b, from) matches Some(i) ==> from <= i <= text.len(),
    decreases text.len() + 1 - from,
{
    if from <= text.len() && byte_len(text.take(from)) < b {
        lemma_char_index(text, b, from + 1);
    }
}

/// The span in characters that stands for the span in bytes from `s` to
/// `e`, which a search from the character `start` on has found: the span
/// must lie on character boundaries and must not start before `start`. It
/// may be empty.
pub open spec fn in_characters(text: Seq<char>, start: int, s: int, e: int) -> Option<MatchRange> {
    match char_index(text, s, start) {
        Some(i) => match char_index(text, e, i) {
            Some(j) => Some(span(i, j)),
            None => None,
        },
        None => None,
    }
}

/// What a search for `pattern` finds in `text` from the character `start`
/// on, in characters: the leftmost match that is not empty. After an empty
/// match the search is made again from the next character.
pub open spec fn found(pattern: Seq<char>, text: Seq<char>, start: int) -> Option<MatchRange>
    decreases text.len() - start,
{
    if start < 0 || start > text.len() {
        None
    } else {
        match regex_found(pattern, text, byte_len(text.take(start))) {
            Some((s, e)) => match in_characters(text, start, s, e) {
                Some(m) => if m.start < m.end {
                    Some(m)
                } else if start <= m.start < text.len() {
                    found(pattern, text, m.start + 1)
                } else {
                    None
                },
                None => None,
            },
            None => None,
        }
    }
}

/// What `found` finds lies within the text, at or after the start, and is
/// not empty.
pub proof fn lemma_found(pattern: Seq<char>, text: Seq<char>, start: int)
    requires
        0 <= start <= text.len() <= usize::MAX,
    ensures
        found(pattern, text, start) matches Some(m) ==> start <= m.start < m.end <= text.len(),
    decreases text.len() - start,
{
    if let Some((s, e)) = regex_found(pattern, text, byte_len(text.take(start))) {
        lemma_char_index(text, s, start);
        if let Some(i) = char_index(text, s, start) {
            lemma_char_index(text, e, i);
            if let Some(m) = in_characters(text, start, s, e) {
                if m.start >= m.end && start <= m.start < text.len() {
                    lemma_found(pattern, text, m.start + 1);
                }
            }
        }
    }
}

fn char_width(c: char) -> (n: usize)
    ensures
        n == width(c),
{
    let v: u32 = c as u32;
    if v <= 0x7F {
        1
    } else if v <= 0x7FF {
        2
    } else if v <= 0xFFFF {
        3
    } else {
        4
    }
}

/// The byte offset of each character of `text`, and of its end.
fn byte_offsets(text: &[char], total: usize) -> (r: Vec<usize>)
    requires
        byte_len(text@) == total,
    ensures
        r@.len() == text@.len() + 1,
        forall|i: int| 0 <= i <= text@.len() ==> #[trigger] r@[i] == byte_len(text@.take(i)),
{
    let mut r: Vec<usize> = Vec::new();
    let mut acc: usize = 0;
    r.push(0);
    let mut i: usize = 0;
    while i < text.len()
        invariant
            i <= text.len(),
            byte_len(text@) == total,
            acc == byte_len(text@.take(i as int)),
            r@.len() == i + 1,
            forall|k: int| 0 <= k <= i ==> #[trigger] r@[k] == byte_len(text@.take(k)),
        decreases text.len() - i,
    {
        proof {
            lemma_byte_len_grows(text@, i + 1, text@.len() as int);
            assert(text@.take(text@.len() as int) =~= text@);
            assert(text@.take(i + 1).drop_last() =~= text@.take(i as int));
        }
        acc = acc + char_width(text[i]);
        r.push(acc);
        i += 1;
    }
    r
}

/// The index at or after `from` whose character starts at the byte `b`.
fn index_of_offset(text: &[char], offsets: &Vec<usize>, b: usize, from: usize) -> (r: Option<usize>)
    requires
        offsets@.len() == text@.len() + 1,
        forall|i: int| 0 <= i <= text@.len() ==> #[trigger] offsets@[i] == byte_len(text@.take(i)),
    ensures
        match r {
            Some(i) => char_index(text@, b as int, from as int) == Some(i as int) && from <= i
                <= text@.len(),
            None => char_index(text@, b as int, from as int) is None,
        },
{
    let mut i: usize = from;
    assert(offsets@.len() == offsets.len());
    while i <= text.len()
        invariant
            from <= i,
            text@.len() < usize::MAX,
            offsets@.len() == text@.len() + 1,
            forall|k: int|
                0 <= k <= text@.len() ==> #[trigger] offsets@[k] == byte_len(text@.take(k)),
            char_index(text@, b as int, i as int) == char_index(text@, b as int, from as int),
        decreases text.len() + 1 - i,
    {
        if offsets[i] == b {
            return Some(i);
        }
        if offsets[i] > b {
            return None;
        }
        i += 1;
    }
    None
}

/// A regular expression, by its source.
#[derive(Debug, PartialEq, Eq)]
pub struct RegexPattern {
    pub source: String,
}

impl RegexPattern {
    /// The pattern with the source `source`; `None` where the source is no
    /// regular expression.
    pub fn new(source: &str) -> (r: Option<RegexPattern>)
        ensures
            match r {
                Some(p) => regex_compiles(source@) && p.source@ == source@,
                None => !regex_compiles(source@),
            },
    {
        if regex_is_valid(source) {
            Some(RegexPattern { source: String::from_str(source) })
        } else {
            None
        }
    }

    /// The span in characters that stands for the span in bytes `hit`,
    /// which a search from the character `start` on has found: the span must
    /// lie on character boundaries and must not start before `start`. It
    /// may be empty.
    pub fn in_chars(text: &[char], start: usize, hit: Option<(usize, usize)>) -> (r: Option<
        MatchRange,
    >)
        ensures
            match hit {
                Some((s, e)) => r == in_characters(text@, start as int, s as int, e as int),
                None => r is None,
            },
    {
        let (_, offsets) = encoded(text);
        to_chars(text, &offsets, start, hit)
    }
}

/// `text` as a string, with the byte offset of each of its characters and
/// of its end.
fn encoded(text: &[char]) -> (r: (String, Vec<usize>))
    ensures
        r.0@ == text@,
        r.1@.len() == text@.len() + 1,
        forall|i: int| 0 <= i <= text@.len() ==> #[trigger] r.1@[i] == byte_len(text@.take(i)),
{
    let owned = string_from_chars(text);
    let total = owned.as_str().as_bytes().len();
    proof {
        lemma_byte_len(text@);
    }
    let offsets = byte_offsets(text, total);
    (owned, offsets)
}

fn to_chars(text: &[char], offsets: &Vec<usize>, start: usize, hit: Option<(usize, usize)>) -> (r:
    Option<MatchRange>)
    requires
        offsets@.len() == text@.len() + 1,
        forall|i: int| 0 <= i <= text@.len() ==> #[trigger] offsets@[i] == byte_len(text@.take(i)),
    ensures
        match hit {
            Some((s, e)) => r == in_characters(text@, start as int, s as int, e as int),
            None => r is None,
        },
{
    match hit {
        Some((s, e)) => match index_of_offset(text, offsets, s, start) {
            Some(i) => match index_of_offset(text, offsets, e, i) {
                Some(j) => Some(MatchRange { start: i, end: j }),
                None => None,
            },
            None => None,
        },
        None => None,
    }
}

impl Pattern for RegexPattern {
    open spec fn first_match(&self, text: Seq<char>, start: int) -> Option<MatchRange> {
        found(self.source@, text, start)
    }

    proof fn lemma_first_match(&self, text: Seq<char>, start: int) {
        lemma_found(self.source@, text, start);
    }

    fn find_at(&self, text: &[char], start: usize) -> (r: Option<MatchRange>) {
        let (owned, offsets) = encoded(text);
        let mut at: usize = start;
        loop
            invariant
                start <= at <= text.len(),
                owned@ == text@,
                offsets@.len() == text@.len() + 1,
                forall|i: int|
                    0 <= i <= text@.len() ==> #[trigger] offsets@[i] == byte_len(text@.take(i)),
                found(self.source@, text@, at as int) == found(self.source@, text@, start as int),
            decreases text.len() - at,
        {
            proof {
                lemma_byte_len(text@);
                lemma_byte_len_grows(text@, at as int, text@.len() as int);
                assert(text@.take(text@.len() as int) =~= text@);
            }
            let hit = regex_find_at(self.source.as_str(), owned.as_str(), offsets[at]);
            match to_chars(text, &offsets, at, hit) {
                Some(m) => {
                    if m.start < m.end {
                        return Some(m);
                    }
                    if m.start >= text.len() {
                        return None;
                    }
                    proof {
                        if let Some((s, _)) = hit {
                            lemma_char_index(text@, s as int, at as int);
                        }
                    }
                    at = m.start + 1;
                },
                None => {
                    return None;
                },
            }
        }
    }
}

} // verus!

//! Inline substitutions: `$(command)`, replaced by what the command prints,
//! and `<%= expression %>`, replaced by the value of the expression.
//!
//! A substitution reaches from its opening to the first closing that follows
//! it. Substitutions may nest; the engine resolves the innermost first.
use crate::failure::MatchRange;
use crate::nesting::span;
use crate::repl::Pattern;
use crate::text::{find_char, index_of, lemma_find_char};
use vstd::prelude::*;

verus! {

/// The first index at or after `from` where `a` stands directly before `b`,
/// or `s.len()`.
pub open spec fn find_pair(s: Seq<char>, a: char, b: char, from: int) -> int
    decreases s.len() - from,
{
    if from < 0 || from + 1 >= s.len() {
        s.len() as int
    } else if s[from] == a && s[from + 1] == b {
        from
    } else {
        find_pair(s, a, b, from + 1)
    }
}

/// `find_pair` is the first place at or after `from` where the pair stands.
pub proof fn lemma_find_pair(s: Seq<char>, a: char, b: char, from: int)
    requires
        0 <= from <= s.len(),
    ensures
        ({
            let j = find_pair(s, a, b, from);
            &&& from <= j <= s.len()
            &&& j < s.len() ==> j + 1 < s.len() && s[j] == a && s[j + 1] == b
            &&& forall|k: int| from <= k < j && k + 1 < s.len() ==> !(s[k] == a && #[trigger] s[k + 1] == b)
        }),
    decreases s.len() - from,
{
    if from + 1 < s.len() && !(s[from] == a && s[from + 1] == b) {
        lemma_find_pair(s, a, b, from + 1);
    }
}

/// Where the substitution that opens at `i` ends, if one opens there and is
/// closed: `$(` reaches to the first `)`, `<%=` to the first `%>`.
pub open spec fn inline_end(s: Seq<char>, i: int) -> Option<int> {
    if 0 <= i && i + 1 < s.len() && s[i] == '$' && s[i + 1] == '(' {
        let j = find_char(s, ')', i + 2);
        if j < s.len() {
            Some(j + 1)
        } else {
            None
        }
    } else if 0 <= i && i + 2 < s.len() && s[i] == '<' && s[i + 1] == '%' && s[i + 2] == '=' {
        let j = find_pair(s, '%', '>', i + 3);
        if j < s.len() {
            Some(j + 2)
        } else {
            None
        }
    } else {
        None
    }
}

/// The leftmost substitution that opens at or after `i`.
pub open spec fn next_inline(s: Seq<char>, i: int) -> Option<MatchRange>
    decreases s.len() - i,
{
    if i < 0 || i >= s.len() {
        None
    } else {
        match inline_end(s, i) {
            Some(e) => Some(span(i, e)),
            None => next_inline(s, i + 1),
        }
    }
}

/// The two kinds of inline substitution.
#[derive(Clone, Copy, Debug, PartialEq, Eq, Structural)]
pub enum InlineKind {
    /// `$(..)`: a command whose output is captured.
    Command,
    /// `<%= .. %>`: an expression for the script engine.
    Script,
}

/// The kind of the substitution at `m`.
pub open spec fn kind_of(s: Seq<char>, m: MatchRange) -> InlineKind {
    if s[m.start as int] == '$' {
        InlineKind::Command
    } else {
        InlineKind::Script
    }
}

/// What stands between the delimiters of the substitution at `m`.
pub open spec fn source_of(s: Seq<char>, m: MatchRange) -> Seq<char> {
    if s[m.start as int] == '$' {
        s.subrange(m.start + 2, m.end - 1)
    } else {
        s.subrange(m.start + 3, m.end - 2)
    }
}

/// A substitution found by the pattern has both its delimiters.
pub proof fn lemma_next_inline(s: Seq<char>, i: int)
    requires
        0 <= i <= s.len() <= usize::MAX,
    ensures
        next_inline(s, i) matches Some(m) ==> {
            &&& i <= m.start < m.end <= s.len()
            &&& inline_end(s, m.start as int) == Some(m.end as int)
            &&& s[m.start as int] == '$' ==> m.start + 3 <= m.end
            &&& s[m.start as int] != '$' ==> m.start + 5 <= m.end
        },
    decreases s.len() - i,
{
    if i < s.len() {
        match inline_end(s, i) {
            Some(e) => {
                if s[i] == '$' {
                    lemma_find_char(s, ')', i + 2);
                } else {
                    lemma_find_pair(s, '%', '>', i + 3);
                }
            },
            None => {
                lemma_next_inline(s, i + 1);
            },
        }
    }
}

fn index_of_pair(s: &[char], a: char, b: char, from: usize) -> (j: usize)
    requires
        from <= s.len(),
    ensures
        j == find_pair(s@, a, b, from as int),
        from <= j <= s.len(),
        j < s.len() ==> j + 1 < s.len(),
{
    let mut j: usize = from;
    while s.len() - j >= 2
        invariant
            from <= j <= s.len(),
            find_pair(s@, a, b, j as int) == find_pair(s@, a, b, from as int),
        decreases s.len() - j,
    {
        if s[j] == a && s[j + 1] == b {
            return j;
        }
        j += 1;
    }
    s.len()
}

fn end_of_inline(s: &[char], i: usize) -> (r: Option<usize>)
    requires
        i < s.len(),
    ensures
        match r {
            Some(e) => inline_end(s@, i as int) == Some(e as int) && i < e <= s.len(),
            None => inline_end(s@, i as int) is None,
        },
{
    let left = s.len() - i;
    if left >= 2 && s[i] == '$' && s[i + 1] == '(' {
        let j = index_of(s, ')', i + 2);
        if j < s.len() {
            Some(j + 1)
        } else {
            None
        }
    } else if left >= 3 && s[i] == '<' && s[i + 1] == '%' && s[i + 2] == '=' {
        let j = index_of_pair(s, '%', '>', i + 3);
        if j < s.len() {
            Some(j + 2)
        } else {
            None
        }
    } else {
        None
    }
}

/// The inline substitutions, of either kind.
pub struct Substitution;

impl Pattern for Substitution {
    open spec fn first_match(&self, text: Seq<char>, start: int) -> Option<MatchRange> {
        next_inline(text, start)
    }

    proof fn lemma_first_match(&self, text: Seq<char>, start: int) {
        lemma_next_inline(text, start);
    }

    fn find_at(&self, text: &[char], start: usize) -> (r: Option<MatchRange>) {
        let mut i: usize = start;
        while i < text.len()
            invariant
                start <= i <= text.len(),
                next_inline(text@, i as int) == next_inline(text@, start as int),
            decreases text.len() - i,
        {
            match end_of_inline(text, i) {
                Some(e) => {
                    return Some(MatchRange { start: i, end: e });
                },
                None => {},
            }
            i += 1;
        }
        None
    }
}

} // verus!

//! The substitution engine: replacing every match of a pattern, finding the
//! innermost of nested matches, and cutting a text at a match.
//!
//! The engine knows neither what a pattern looks for nor what a resolver
//! answers. A pattern says where its leftmost match at or after an offset
//! lies; a resolver says what stands in for a matched text, or fails.
use crate::failure::{decorated_with, labelled, Failure, FailureKind, FailureView, MatchRange};
use crate::text::{chars_of, string_from_chars};
use vstd::prelude::*;
use vstd::slice::slice_subrange;

verus! {

/// Something to look for in a text.
pub trait Pattern {
    /// The leftmost match that starts at or after `start`.
    spec fn first_match(&self, text: Seq<char>, start: int) -> Option<MatchRange>;

    /// A match lies within the text, at or after the offset asked for, and is
    /// never empty.
    proof fn lemma_first_match(&self, text: Seq<char>, start: int)
        requires
            0 <= start <= text.len() <= usize::MAX,
        ensures
            self.first_match(text, start) matches Some(m) ==> start <= m.start < m.end
                <= text.len(),
    ;

    fn find_at(&self, text: &[char], start: usize) -> (r: Option<MatchRange>)
        requires
            start <= text.len(),
        ensures
            r == self.first_match(text@, start as int),
    ;
}

/// Something that answers a matched text with its replacement.
pub trait Resolver {
    spec fn resolved(&self, token: Seq<char>) -> Result<Seq<char>, FailureView>;

    fn resolve(&self, token: &[char]) -> (r: Result<Vec<char>, Failure>)
        ensures
            match r {
                Ok(t) => self.resolved(token@) == Ok::<Seq<char>, FailureView>(t@),
                Err(f) => self.resolved(token@) == Err::<Seq<char>, FailureView>(f@),
            },
    ;
}

/// `head` before what `rest` holds, where it holds a text.
pub open spec fn prefixed(head: Seq<char>, rest: Result<Seq<char>, FailureView>) -> Result<
    Seq<char>,
    FailureView,
> {
    match rest {
        Ok(tail) => Ok(head + tail),
        Err(f) => Err(f),
    }
}

/// `text` from `from` on with every match replaced, in one pass from left to
/// right: what a replacement holds is not searched again. The first failure
/// of the resolver ends the pass; it is decorated with the text and the match.
pub open spec fn replaced_all<P: Pattern, R: Resolver>(
    pattern: &P,
    resolver: &R,
    text: Seq<char>,
    from: int,
) -> Result<Seq<char>, FailureView>
    decreases text.len() - from,
{
    match pattern.first_match(text, from) {
        Some(m) if from <= m.start < m.end <= text.len() => {
            match resolver.resolved(text.subrange(m.start as int, m.end as int)) {
                Ok(replacement) => prefixed(
                    text.subrange(from, m.start as int) + replacement,
                    replaced_all(pattern, resolver, text, m.end as int),
                ),
                Err(f) => Err(decorated_with(f, text, m)),
            }
        },
        _ => Ok(text.subrange(from, text.len() as int)),
    }
}

/// Replaces every match of `pattern` in `text` by what `resolver` answers.
pub fn replace_all_chars<P: Pattern, R: Resolver>(pattern: &P, text: &[char], resolver: &R) -> (r:
    Result<Vec<char>, Failure>)
    ensures
        match r {
            Ok(t) => replaced_all(pattern, resolver, text@, 0) == Ok::<Seq<char>, FailureView>(t@),
            Err(f) => replaced_all(pattern, resolver, text@, 0) == Err::<Seq<char>, FailureView>(
                f@,
            ),
        },
{
    let mut out: Vec<char> = Vec::new();
    let mut from: usize = 0;
    loop
        invariant_except_break
            from <= text.len(),
            prefixed(out@, replaced_all(pattern, resolver, text@, from as int)) == replaced_all(
                pattern,
                resolver,
                text@,
                0,
            ),
        ensures
            replaced_all(pattern, resolver, text@, 0) == Ok::<Seq<char>, FailureView>(out@),
        decreases text.len() - from,
    {
        proof {
            pattern.lemma_first_match(text@, from as int);
        }
        let ghost before = out@;
        match pattern.find_at(text, from) {
            Some(m) => {
                match resolver.resolve(slice_subrange(text, m.start, m.end)) {
                    Ok(replacement) => {
                        out.extend_from_slice(slice_subrange(text, from, m.start));
                        out.extend_from_slice(replacement.as_slice());
                        assert(prefixed(
                            out@,
                            replaced_all(pattern, resolver, text@, m.end as int),
                        ) == prefixed(
                            before,
                            replaced_all(pattern, resolver, text@, from as int),
                        )) by {
                            let head = text@.subrange(from as int, m.start as int)
                                + replacement@;
                            if let Ok(tail) = replaced_all(
                                pattern,
                                resolver,
                                text@,
                                m.end as int,
                            ) {
                                assert(out@ + tail =~= before + (head + tail));
                            }
                        }
                        from = m.end;
                    },
                    Err(f) => {
                        return Err(f.decorate(text, m));
                    },
                }
            },
            None => {
                out.extend_from_slice(slice_subrange(text, from, text.len()));
                assert(out@ =~= before + text@.subrange(from as int, text@.len() as int));
                break;
            },
        }
    }
    Ok(out)
}

/// Replaces every match of `pattern` in `text` by what `resolver` answers,
/// in one pass from left to right. The first failure of the resolver ends the
/// pass, and comes back decorated with the text and the match at fault.
pub fn replace_all_func<P: Pattern, R: Resolver>(pattern: &P, text: &str, resolver: &R) -> (r:
    Result<String, Failure>)
    ensures
        match r {
            Ok(t) => replaced_all(pattern, resolver, text@, 0) == Ok::<Seq<char>, FailureView>(t@),
            Err(f) => replaced_all(pattern, resolver, text@, 0) == Err::<Seq<char>, FailureView>(
                f@,
            ),
        },
{
    let chars = chars_of(text);
    match replace_all_chars(pattern, chars.as_slice(), resolver) {
        Ok(out) => Ok(string_from_chars(out.as_slice())),
        Err(f) => Err(f),
    }
}

/// The innermost of the matches that end where `m` ends: the search is made
/// again one character after the start of the match at hand, as long as it
/// finds a match with the same end.
pub open spec fn innermost<P: Pattern>(pattern: &P, text: Seq<char>, m: MatchRange) -> MatchRange
    decreases text.len() - m.start,
{
    match pattern.first_match(text, m.start + 1) {
        Some(inner) if m.start < inner.start <= text.len() && inner.end == m.end => innermost(
            pattern,
            text,
            inner,
        ),
        _ => m,
    }
}

/// The match to resolve first: the innermost of those that end with the
/// leftmost match.
pub open spec fn nested<P: Pattern>(pattern: &P, text: Seq<char>) -> Option<MatchRange> {
    match pattern.first_match(text, 0) {
        Some(m) => Some(innermost(pattern, text, m)),
        None => None,
    }
}

/// The innermost match is a match itself, found by a search from its own
/// start, and ends where the outer one ends.
pub proof fn lemma_innermost<P: Pattern>(pattern: &P, text: Seq<char>, m: MatchRange, from: int)
    requires
        text.len() <= usize::MAX,
        0 <= from <= m.start < m.end <= text.len(),
        pattern.first_match(text, from) == Some(m),
    ensures
        ({
            let r = innermost(pattern, text, m);
            &&& m.start <= r.start < r.end == m.end
            &&& exists|at: int| from <= at <= r.start && pattern.first_match(text, at) == Some(r)
        }),
    decreases text.len() - m.start,
{
    pattern.lemma_first_match(text, m.start + 1);
    match pattern.first_match(text, m.start + 1) {
        Some(inner) => {
            if inner.end == m.end {
                lemma_innermost(pattern, text, inner, m.start + 1);
                let r = innermost(pattern, text, inner);
                let at = choose|at: int|
                    m.start + 1 <= at <= r.start && pattern.first_match(text, at) == Some(r);
                assert(from <= at <= r.start && pattern.first_match(text, at) == Some(r));
            } else {
                assert(pattern.first_match(text, from) == Some(m));
            }
        },
        None => {
            assert(pattern.first_match(text, from) == Some(m));
        },
    }
}

/// The match of `pattern` in `text` to resolve first.
pub fn nested_match<P: Pattern>(pattern: &P, text: &[char]) -> (r: Option<MatchRange>)
    ensures
        r == nested(pattern, text@),
        r matches Some(m) ==> m.start < m.end <= text@.len(),
{
    proof {
        pattern.lemma_first_match(text@, 0);
    }
    let mut m = match pattern.find_at(text, 0) {
        Some(m) => m,
        None => {
            return None;
        },
    };
    loop
        invariant_except_break
            m.start < m.end <= text.len(),
            innermost(pattern, text@, m) == nested(pattern, text@)->0,
            nested(pattern, text@) is Some,
        ensures
            m.start < m.end <= text.len(),
            Some(m) == nested(pattern, text@),
        decreases text.len() - m.start,
    {
        proof {
            pattern.lemma_first_match(text@, m.start + 1);
        }
        match pattern.find_at(text, m.start + 1) {
            Some(inner) => {
                if inner.end != m.end {
                    break;
                }
                m = inner;
            },
            None => {
                break;
            },
        }
    }
    Some(m)
}

/// `text` with the span `m` replaced by `replacement`.
pub open spec fn spliced(text: Seq<char>, m: MatchRange, replacement: Seq<char>) -> Seq<char> {
    text.subrange(0, m.start as int) + replacement + text.subrange(
        m.end as int,
        text.len() as int,
    )
}

/// Puts `replacement` in the place of the span `m` of `text`.
pub fn splice(text: &[char], m: MatchRange, replacement: &[char]) -> (r: Vec<char>)
    requires
        m.fits(text@.len() as int),
    ensures
        r@ == spliced(text@, m, replacement@),
{
    let mut out: Vec<char> = Vec::new();
    out.extend_from_slice(slice_subrange(text, 0, m.start));
    out.extend_from_slice(replacement);
    out.extend_from_slice(slice_subrange(text, m.end, text.len()));
    out
}

/// The failure of a text that still holds a match after every round that
/// was allowed.
pub open spec fn endless() -> FailureView {
    FailureView {
        kind: FailureKind::Substitution,
        message: labelled("failed"@, "nested substitution does not come to an end"@),
        decorated: false,
    }
}

/// `text` with its matches resolved from the inside out, one per round, in
/// at most `rounds` rounds: each round replaces the match that `nested`
/// names, and what the replacement holds is searched again. The first failure
/// of the resolver ends it; it is decorated with the text of that round.
pub open spec fn replaced_nested<P: Pattern, R: Resolver>(
    pattern: &P,
    resolver: &R,
    text: Seq<char>,
    rounds: nat,
) -> Result<Seq<char>, FailureView>
    decreases rounds,
{
    match nested(pattern, text) {
        None => Ok(text),
        Some(m) => if rounds == 0 {
            Err(endless())
        } else {
            match resolver.resolved(text.subrange(m.start as int, m.end as int)) {
                Ok(replacement) => replaced_nested(
                    pattern,
                    resolver,
                    spliced(text, m, replacement),
                    (rounds - 1) as nat,
                ),
                Err(f) => Err(decorated_with(f, text, m)),
            }
        },
    }
}

/// Resolves the matches of `pattern` in `text` from the inside out, until
/// none is left. A replacement may hold new matches, so the number of rounds
/// is bounded: with a match left after `rounds` rounds, this fails.
pub fn replace_all_func_nested<P: Pattern, R: Resolver>(
    pattern: &P,
    text: &str,
    resolver: &R,
    rounds: usize,
) -> (r: Result<String, Failure>)
    ensures
        match r {
            Ok(t) => replaced_nested(pattern, resolver, text@, rounds as nat) == Ok::<
                Seq<char>,
                FailureView,
            >(t@),
            Err(f) => replaced_nested(pattern, resolver, text@, rounds as nat) == Err::<
                Seq<char>,
                FailureView,
            >(f@),
        },
{
    let mut current = chars_of(text);
    let mut left: usize = rounds;
    loop
        invariant_except_break
            replaced_nested(pattern, resolver, current@, left as nat) == replaced_nested(
                pattern,
                resolver,
                text@,
                rounds as nat,
            ),
        ensures
            replaced_nested(pattern, resolver, text@, rounds as nat) == Ok::<
                Seq<char>,
                FailureView,
            >(current@),
        decreases left,
    {
        match nested_match(pattern, current.as_slice()) {
            None => {
                break;
            },
            Some(m) => {
                if left == 0 {
                    let detail = chars_of("nested substitution does not come to an end");
                    return Err(
                        Failure::labelled(FailureKind::Substitution, "failed", detail.as_slice()),
                    );
                }
                match resolver.resolve(slice_subrange(current.as_slice(), m.start, m.end)) {
                    Ok(replacement) => {
                        current = splice(current.as_slice(), m, replacement.as_slice());
                        left = left - 1;
                    },
                    Err(f) => {
                        return Err(f.decorate(current.as_slice(), m));
                    },
                }
            },
        }
    }
    Ok(string_from_chars(current.as_slice()))
}

/// The three parts of `text` round the leftmost match of `pattern`: what
/// stands before the match, the match, and what stands after it.
pub open spec fn partitioned<P: Pattern>(pattern: &P, text: Seq<char>) -> Option<
    (Seq<char>, Seq<char>, Seq<char>),
> {
    match pattern.first_match(text, 0) {
        Some(m) => Some(
            (
                text.subrange(0, m.start as int),
                text.subrange(m.start as int, m.end as int),
                text.subrange(m.end as int, text.len() as int),
            ),
        ),
        None => None,
    }
}

/// Cuts `text` at the leftmost match of `pattern`.
pub fn partition_re<P: Pattern>(pattern: &P, text: &str) -> (r: Option<(String, String, String)>)
    ensures
        match r {
            Some((before, matched, after)) => partitioned(pattern, text@) == Some(
                (before@, matched@, after@),
            ),
            None => partitioned(pattern, text@) is None,
        },
{
    let chars = chars_of(text);
    let text = chars.as_slice();
    proof {
        assert(text@.len() == text.len());
        pattern.lemma_first_match(text@, 0);
    }
    match pattern.find_at(text, 0) {
        Some(m) => Some(
            (
                string_from_chars(slice_subrange(text, 0, m.start)),
                string_from_chars(slice_subrange(text, m.start, m.end)),
                string_from_chars(slice_subrange(text, m.end, text.len())),
            ),
        ),
        None => None,
    }
}

} // verus!

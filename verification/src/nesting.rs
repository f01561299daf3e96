//! The nesting validator.
//!
//! A segment may hold command substitutions, opened by `$(` or by a bare `(`
//! and closed by `)`, and script expressions between `<%=` and `%>`. The two
//! families must nest properly and must not interleave. The validator scans
//! the delimiters from left to right with one stack per family and reports
//! every delimiter at fault: a close with nothing to close, a close that
//! reaches over a younger open of the other family, and every open that is
//! left at the end.
use crate::failure::{labelled, span_pieces, spans_ordered, Failure, FailureKind, FailureView, MatchRange};
use crate::text::chars_of;
use vstd::prelude::*;

verus! {

/// The four delimiters.
#[derive(Clone, Copy, Debug, PartialEq, Eq, Structural)]
pub enum Delimiter {
    OpenCommand,
    CloseCommand,
    OpenScript,
    CloseScript,
}

/// The delimiter that starts at offset `i`, with its length.
pub open spec fn delimiter_at(s: Seq<char>, i: int) -> Option<(Delimiter, int)> {
    if i < 0 || i >= s.len() {
        None
    } else if s[i] == '$' && i + 1 < s.len() && s[i + 1] == '(' {
        Some((Delimiter::OpenCommand, 2))
    } else if s[i] == '(' {
        Some((Delimiter::OpenCommand, 1))
    } else if s[i] == '<' && i + 2 < s.len() && s[i + 1] == '%' && s[i + 2] == '=' {
        Some((Delimiter::OpenScript, 3))
    } else if s[i] == '%' && i + 1 < s.len() && s[i + 1] == '>' {
        Some((Delimiter::CloseScript, 2))
    } else if s[i] == ')' {
        Some((Delimiter::CloseCommand, 1))
    } else {
        None
    }
}

/// What the scan holds: the opens of each family that are not closed yet,
/// oldest first, and the closes found at fault.
pub struct Nesting {
    pub commands: Seq<MatchRange>,
    pub scripts: Seq<MatchRange>,
    pub erred: Seq<MatchRange>,
}

/// The state before anything is scanned.
pub open spec fn no_nesting() -> Nesting {
    Nesting { commands: Seq::empty(), scripts: Seq::empty(), erred: Seq::empty() }
}

/// The result of closing the youngest open of `own` while `other` holds the
/// opens of the other family: the opens that stay, and whether the close at
/// `r` is at fault.
pub open spec fn closed(own: Seq<MatchRange>, other: Seq<MatchRange>) -> (Seq<MatchRange>, bool) {
    if own.len() == 0 {
        (own, true)
    } else {
        (own.drop_last(), other.len() > 0 && own.last().end < other.last().end)
    }
}

/// The state after the delimiter `d` at `r`.
pub open spec fn after_delimiter(st: Nesting, d: Delimiter, r: MatchRange) -> Nesting {
    match d {
        Delimiter::OpenCommand => Nesting { commands: st.commands.push(r), ..st },
        Delimiter::OpenScript => Nesting { scripts: st.scripts.push(r), ..st },
        Delimiter::CloseCommand => {
            let (rest, fault) = closed(st.commands, st.scripts);
            Nesting {
                commands: rest,
                scripts: st.scripts,
                erred: if fault {
                    st.erred.push(r)
                } else {
                    st.erred
                },
            }
        },
        Delimiter::CloseScript => {
            let (rest, fault) = closed(st.scripts, st.commands);
            Nesting {
                commands: st.commands,
                scripts: rest,
                erred: if fault {
                    st.erred.push(r)
                } else {
                    st.erred
                },
            }
        },
    }
}

/// The span from `start` to `end`.
pub open spec fn span(start: int, end: int) -> MatchRange {
    MatchRange { start: start as usize, end: end as usize }
}

/// The state after scanning `s` from offset `i` on, starting in `st`.
pub open spec fn scanned(s: Seq<char>, i: int, st: Nesting) -> Nesting
    decreases s.len() - i,
{
    if i < 0 || i >= s.len() {
        st
    } else {
        match delimiter_at(s, i) {
            Some((d, n)) => scanned(s, i + n, after_delimiter(st, d, span(i, i + n))),
            None => scanned(s, i + 1, st),
        }
    }
}

/// Two sequences ordered by start, as one.
pub open spec fn merged(a: Seq<MatchRange>, b: Seq<MatchRange>) -> Seq<MatchRange>
    decreases a.len() + b.len(),
{
    if a.len() == 0 {
        b
    } else if b.len() == 0 {
        a
    } else if a[0].start <= b[0].start {
        seq![a[0]] + merged(a.drop_first(), b)
    } else {
        seq![b[0]] + merged(a, b.drop_first())
    }
}

/// The delimiters of `s` that are at fault, in the order of the text.
pub open spec fn violations(s: Seq<char>) -> Seq<MatchRange> {
    let st = scanned(s, 0, no_nesting());
    merged(merged(st.erred, st.commands), st.scripts)
}

/// The failure that reports `violations(s)`.
pub open spec fn nesting_failure(s: Seq<char>) -> FailureView {
    FailureView {
        kind: FailureKind::Nesting,
        message: labelled("failed"@, "nested command syntax error"@ + seq!['\n', '\n'])
            + span_pieces(s, violations(s), 0),
        decorated: true,
    }
}

/// Every span is a non-empty interval that ends at or before `bound`, and
/// the spans follow one another.
pub open spec fn sorted(q: Seq<MatchRange>, bound: int) -> bool {
    &&& forall|k: int| 0 <= k < q.len() ==> (#[trigger] q[k]).start < q[k].end <= bound
    &&& forall|k: int, l: int|
        0 <= k < l < q.len() ==> (#[trigger] q[k]).end <= (#[trigger] q[l]).start
}

/// No span of `a` overlaps one of `b`.
pub open spec fn apart(a: Seq<MatchRange>, b: Seq<MatchRange>) -> bool {
    forall|k: int, l: int|
        0 <= k < a.len() && 0 <= l < b.len() ==> (#[trigger] a[k]).end <= (#[trigger] b[l]).start
            || b[l].end <= a[k].start
}

/// The three sequences of a scan that has come to offset `bound` hold
/// distinct delimiters of the text before it.
pub open spec fn tidy(st: Nesting, bound: int) -> bool {
    &&& sorted(st.commands, bound)
    &&& sorted(st.scripts, bound)
    &&& sorted(st.erred, bound)
    &&& apart(st.commands, st.scripts)
    &&& apart(st.erred, st.commands)
    &&& apart(st.erred, st.scripts)
}

proof fn lemma_after_delimiter_tidy(st: Nesting, d: Delimiter, i: int, n: int)
    requires
        tidy(st, i),
        0 <= i,
        1 <= n,
        i + n <= usize::MAX,
    ensures
        tidy(after_delimiter(st, d, span(i, i + n)), i + n),
{
}

/// Merging keeps every span, adds none, and keeps the order.
pub proof fn lemma_merged(a: Seq<MatchRange>, b: Seq<MatchRange>, bound: int)
    requires
        sorted(a, bound),
        sorted(b, bound),
        apart(a, b),
    ensures
        sorted(merged(a, b), bound),
        merged(a, b).len() == a.len() + b.len(),
        forall|r: MatchRange| #[trigger] merged(a, b).contains(r) <==> a.contains(r) || b.contains(r),
    decreases a.len() + b.len(),
{
    if a.len() == 0 || b.len() == 0 {
    } else if a[0].start <= b[0].start {
        lemma_merged(a.drop_first(), b, bound);
        lemma_cons(a[0], merged(a.drop_first(), b), a, b, a.drop_first(), b, bound);
    } else {
        lemma_merged(a, b.drop_first(), bound);
        lemma_cons(b[0], merged(a, b.drop_first()), a, b, a, b.drop_first(), bound);
    }
}

/// One step of `lemma_merged`: `x` leads `a` or `b`, and `rest` merges what
/// is left of them.
proof fn lemma_cons(
    x: MatchRange,
    rest: Seq<MatchRange>,
    a: Seq<MatchRange>,
    b: Seq<MatchRange>,
    a2: Seq<MatchRange>,
    b2: Seq<MatchRange>,
    bound: int,
)
    requires
        sorted(a, bound),
        sorted(b, bound),
        apart(a, b),
        a.len() > 0,
        b.len() > 0,
        (x == a[0] && a2 == a.drop_first() && b2 == b && a[0].start <= b[0].start) || (x == b[0]
            && a2 == a && b2 == b.drop_first() && b[0].start < a[0].start),
        sorted(rest, bound),
        rest.len() == a2.len() + b2.len(),
        forall|r: MatchRange| #[trigger] rest.contains(r) <==> a2.contains(r) || b2.contains(r),
    ensures
        sorted(seq![x] + rest, bound),
        (seq![x] + rest).len() == a.len() + b.len(),
        forall|r: MatchRange|
            #[trigger] (seq![x] + rest).contains(r) <==> a.contains(r) || b.contains(r),
{
    let m = seq![x] + rest;
    assert forall|l: int| 0 <= l < rest.len() implies x.end <= (#[trigger] rest[l]).start by {
        // what is left of `a` and `b` starts after `x` ends
        assert(rest.contains(rest[l]));
    }
    assert forall|r: MatchRange| #[trigger] m.contains(r) <==> a.contains(r) || b.contains(r) by {
        if m.contains(r) {
            let k = choose|k: int| 0 <= k < m.len() && m[k] == r;
            if k > 0 {
                assert(rest.contains(r));
            }
        }
        if a.contains(r) || b.contains(r) {
            let first = (x == r);
            if !first {
                if a.contains(r) {
                    let k = choose|k: int| 0 <= k < a.len() && a[k] == r;
                    if a2 == a.drop_first() {
                        assert(a2[k - 1] == r);
                    }
                } else {
                    let k = choose|k: int| 0 <= k < b.len() && b[k] == r;
                    if b2 == b.drop_first() {
                        assert(b2[k - 1] == r);
                    }
                }
                assert(rest.contains(r));
                let j = choose|j: int| 0 <= j < rest.len() && rest[j] == r;
                assert(m[j + 1] == r);
            } else {
                assert(m[0] == r);
            }
        }
    }
}

/// A scan from a tidy state ends in a tidy state.
pub proof fn lemma_scanned_tidy(s: Seq<char>, i: int, st: Nesting)
    requires
        0 <= i <= s.len() <= usize::MAX,
        tidy(st, i),
    ensures
        tidy(scanned(s, i, st), s.len() as int),
    decreases s.len() - i,
{
    if i < s.len() {
        match delimiter_at(s, i) {
            Some((d, n)) => {
                lemma_after_delimiter_tidy(st, d, i, n);
                lemma_scanned_tidy(s, i + n, after_delimiter(st, d, span(i, i + n)));
            },
            None => {
                lemma_scanned_tidy(s, i + 1, st);
            },
        }
    }
}

/// The violations of a text are spans of it, in order, none empty.
pub proof fn lemma_violations_ordered(s: Seq<char>)
    requires
        s.len() <= usize::MAX,
    ensures
        sorted(violations(s), s.len() as int),
        spans_ordered(violations(s), s.len() as int),
        violations(s).len() == 0 <==> {
            let st = scanned(s, 0, no_nesting());
            st.erred.len() == 0 && st.commands.len() == 0 && st.scripts.len() == 0
        },
{
    let st = scanned(s, 0, no_nesting());
    lemma_scanned_tidy(s, 0, no_nesting());
    let len = s.len() as int;
    lemma_merged(st.erred, st.commands, len);
    let first = merged(st.erred, st.commands);
    assert(apart(first, st.scripts)) by {
        assert forall|k: int, l: int| 0 <= k < first.len() && 0 <= l < st.scripts.len() implies (
        #[trigger] first[k]).end <= (#[trigger] st.scripts[l]).start || st.scripts[l].end
            <= first[k].start by {
            // a span of the merged sequence is one of the two that were merged
            assert(first.contains(first[k]));
        }
    }
    lemma_merged(first, st.scripts, len);
}

/// Whether the delimiters of `s` from offset `i` on nest, given the opens
/// that are not closed yet, the oldest first: every close meets the youngest
/// open, which is of its own family, and no open is left at the end.
pub open spec fn nests(s: Seq<char>, i: int, opens: Seq<Delimiter>) -> bool
    decreases s.len() - i,
{
    if i < 0 || i >= s.len() {
        opens.len() == 0
    } else {
        match delimiter_at(s, i) {
            None => nests(s, i + 1, opens),
            Some((Delimiter::OpenCommand, n)) => nests(s, i + n, opens.push(Delimiter::OpenCommand)),
            Some((Delimiter::OpenScript, n)) => nests(s, i + n, opens.push(Delimiter::OpenScript)),
            Some((Delimiter::CloseCommand, n)) => opens.len() > 0 && opens.last()
                == Delimiter::OpenCommand && nests(s, i + n, opens.drop_last()),
            Some((Delimiter::CloseScript, n)) => opens.len() > 0 && opens.last()
                == Delimiter::OpenScript && nests(s, i + n, opens.drop_last()),
        }
    }
}

/// The delimiters of `s` nest properly: the two families do not interleave,
/// no close is stray, and no open is left.
pub open spec fn well_nested(s: Seq<char>) -> bool {
    nests(s, 0, Seq::empty())
}

/// `opens` is what the two stacks hold, woven into one by age.
pub open spec fn woven(opens: Seq<Delimiter>, commands: Seq<MatchRange>, scripts: Seq<MatchRange>) -> bool
    decreases opens.len(),
{
    if opens.len() == 0 {
        commands.len() == 0 && scripts.len() == 0
    } else if opens.last() == Delimiter::OpenCommand {
        &&& commands.len() > 0
        &&& scripts.len() > 0 ==> scripts.last().end < commands.last().end
        &&& woven(opens.drop_last(), commands.drop_last(), scripts)
    } else {
        &&& opens.last() == Delimiter::OpenScript
        &&& scripts.len() > 0
        &&& commands.len() > 0 ==> commands.last().end < scripts.last().end
        &&& woven(opens.drop_last(), commands, scripts.drop_last())
    }
}

/// No fault, no open left.
pub open spec fn clean(st: Nesting) -> bool {
    st.erred.len() == 0 && st.commands.len() == 0 && st.scripts.len() == 0
}

proof fn lemma_erred_stays(s: Seq<char>, i: int, st: Nesting)
    requires
        st.erred.len() > 0,
    ensures
        scanned(s, i, st).erred.len() > 0,
    decreases s.len() - i,
{
    if 0 <= i < s.len() {
        match delimiter_at(s, i) {
            Some((d, n)) => {
                lemma_erred_stays(s, i + n, after_delimiter(st, d, span(i, i + n)));
            },
            None => {
                lemma_erred_stays(s, i + 1, st);
            },
        }
    }
}

proof fn lemma_scan_nests(s: Seq<char>, i: int, st: Nesting, opens: Seq<Delimiter>)
    requires
        0 <= i <= s.len() <= usize::MAX,
        tidy(st, i),
        st.erred.len() == 0,
        woven(opens, st.commands, st.scripts),
    ensures
        clean(scanned(s, i, st)) <==> nests(s, i, opens),
    decreases s.len() - i,
{
    if i < s.len() {
        match delimiter_at(s, i) {
            None => {
                lemma_scan_nests(s, i + 1, st, opens);
            },
            Some((d, n)) => {
                let next = after_delimiter(st, d, span(i, i + n));
                lemma_after_delimiter_tidy(st, d, i, n);
                match d {
                    Delimiter::OpenCommand => {
                        let pushed = opens.push(Delimiter::OpenCommand);
                        assert(pushed.drop_last() =~= opens);
                        assert(next.commands.drop_last() =~= st.commands);
                        lemma_scan_nests(s, i + n, next, pushed);
                    },
                    Delimiter::OpenScript => {
                        let pushed = opens.push(Delimiter::OpenScript);
                        assert(pushed.drop_last() =~= opens);
                        assert(next.scripts.drop_last() =~= st.scripts);
                        lemma_scan_nests(s, i + n, next, pushed);
                    },
                    Delimiter::CloseCommand => {
                        if opens.len() > 0 && opens.last() == Delimiter::OpenCommand {
                            lemma_scan_nests(s, i + n, next, opens.drop_last());
                        } else {
                            lemma_erred_stays(s, i + n, next);
                        }
                    },
                    Delimiter::CloseScript => {
                        if opens.len() > 0 && opens.last() == Delimiter::OpenScript {
                            lemma_scan_nests(s, i + n, next, opens.drop_last());
                        } else {
                            lemma_erred_stays(s, i + n, next);
                        }
                    },
                }
            },
        }
    }
}

/// The validator finds no fault exactly where the delimiters nest properly.
pub proof fn lemma_valid_iff_well_nested(s: Seq<char>)
    requires
        s.len() <= usize::MAX,
    ensures
        violations(s).len() == 0 <==> well_nested(s),
{
    lemma_violations_ordered(s);
    lemma_scan_nests(s, 0, no_nesting(), Seq::empty());
}

fn delimiter(s: &[char], i: usize) -> (r: Option<(Delimiter, usize)>)
    requires
        i < s.len(),
    ensures
        match r {
            Some((d, n)) => delimiter_at(s@, i as int) == Some((d, n as int)) && 1 <= n && i + n
                <= s.len(),
            None => delimiter_at(s@, i as int) is None,
        },
{
    let c = s[i];
    let left = s.len() - i;
    if c == '$' && left > 1 && s[i + 1] == '(' {
        Some((Delimiter::OpenCommand, 2))
    } else if c == '(' {
        Some((Delimiter::OpenCommand, 1))
    } else if c == '<' && left > 2 && s[i + 1] == '%' && s[i + 2] == '=' {
        Some((Delimiter::OpenScript, 3))
    } else if c == '%' && left > 1 && s[i + 1] == '>' {
        Some((Delimiter::CloseScript, 2))
    } else if c == ')' {
        Some((Delimiter::CloseCommand, 1))
    } else {
        None
    }
}

/// Closes the youngest open of `own`; says whether the close is at fault.
fn close(own: &mut Vec<MatchRange>, other: &Vec<MatchRange>) -> (fault: bool)
    ensures
        (final(own)@, fault) == closed(old(own)@, other@),
{
    match own.pop() {
        Some(open) => {
            other.len() > 0 && open.end < other[other.len() - 1].end
        },
        None => true,
    }
}

fn merge(a: &Vec<MatchRange>, b: &Vec<MatchRange>) -> (m: Vec<MatchRange>)
    ensures
        m@ == merged(a@, b@),
{
    let mut m: Vec<MatchRange> = Vec::new();
    let mut i: usize = 0;
    let mut j: usize = 0;
    assert(a@.skip(0) =~= a@ && b@.skip(0) =~= b@);
    while i < a.len() || j < b.len()
        invariant
            i <= a.len(),
            j <= b.len(),
            m@ + merged(a@.skip(i as int), b@.skip(j as int)) == merged(a@, b@),
        decreases a.len() - i + b.len() - j,
    {
        if j >= b.len() || (i < a.len() && a[i].start <= b[j].start) {
            m.push(a[i]);
            assert(a@.skip(i as int).drop_first() =~= a@.skip(i + 1));
            i += 1;
        } else {
            m.push(b[j]);
            assert(b@.skip(j as int).drop_first() =~= b@.skip(j + 1));
            j += 1;
        }
    }
    m
}

/// The delimiters of `text` that are at fault, in the order of the text.
pub fn find_violations(text: &[char]) -> (r: Vec<MatchRange>)
    ensures
        r@ == violations(text@),
{
    let mut commands: Vec<MatchRange> = Vec::new();
    let mut scripts: Vec<MatchRange> = Vec::new();
    let mut erred: Vec<MatchRange> = Vec::new();
    let mut i: usize = 0;
    while i < text.len()
        invariant
            i <= text.len(),
            scanned(
                text@,
                i as int,
                Nesting { commands: commands@, scripts: scripts@, erred: erred@ },
            ) == scanned(text@, 0, no_nesting()),
        decreases text.len() - i,
    {
        match delimiter(text, i) {
            Some((d, n)) => {
                let r = MatchRange { start: i, end: i + n };
                match d {
                    Delimiter::OpenCommand => {
                        commands.push(r);
                    },
                    Delimiter::OpenScript => {
                        scripts.push(r);
                    },
                    Delimiter::CloseCommand => {
                        if close(&mut commands, &scripts) {
                            erred.push(r);
                        }
                    },
                    Delimiter::CloseScript => {
                        if close(&mut scripts, &commands) {
                            erred.push(r);
                        }
                    },
                }
                i += n;
            },
            None => {
                i += 1;
            },
        }
    }
    let first = merge(&erred, &commands);
    merge(&first, &scripts)
}

/// Accepts a text whose delimiters nest; fails with every delimiter at
/// fault marked otherwise.
pub fn validate_chars(text: &[char]) -> (r: Result<(), Failure>)
    ensures
        match r {
            Ok(_) => violations(text@).len() == 0,
            Err(f) => violations(text@).len() > 0 && f@ == nesting_failure(text@),
        },
{
    let spans = find_violations(text);
    if spans.len() == 0 {
        return Ok(());
    }
    proof {
        assert(text@.len() == text.len());
        lemma_violations_ordered(text@);
    }
    let detail = chars_of("nested command syntax error");
    Err(Failure::with_spans(FailureKind::Nesting, "failed", detail.as_slice(), text, &spans))
}

/// Accepts a text whose delimiters nest; fails with every delimiter at
/// fault marked otherwise.
pub fn validate_nested(text: &str) -> (r: Result<(), Failure>)
    ensures
        match r {
            Ok(_) => violations(text@).len() == 0,
            Err(f) => violations(text@).len() > 0 && f@ == nesting_failure(text@),
        },
{
    let chars = chars_of(text);
    validate_chars(chars.as_slice())
}

} // verus!

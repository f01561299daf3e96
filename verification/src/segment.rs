//! The source segmenter: a body as shell lines and fenced script blocks.
//!
//! A line that holds nothing but the fence ```` ```ruby ```` opens a script
//! block, which reaches to the next line that holds nothing but ```` ``` ````.
//! Every other line is a shell line: it is trimmed, and dropped where
//! nothing is left or where it starts with `#`.
use crate::text::{
    joined, lines, same_text, split_lines, string_from_chars, trim, trimmed, views,
};
use vstd::prelude::*;

verus! {

/// One piece of a body, in the order of the source.
#[derive(Debug, PartialEq, Eq)]
pub enum Segment {
    /// One line for the directive parser.
    ShellLine(String),
    /// The inside of a fenced block, for the script engine.
    ScriptBlock(String),
}

/// A segment, as the contracts see it.
pub enum SegmentView {
    ShellLine(Seq<char>),
    ScriptBlock(Seq<char>),
}

impl View for Segment {
    type V = SegmentView;

    open spec fn view(&self) -> SegmentView {
        match self {
            Segment::ShellLine(t) => SegmentView::ShellLine(t@),
            Segment::ScriptBlock(t) => SegmentView::ScriptBlock(t@),
        }
    }
}

impl Clone for Segment {
    fn clone(&self) -> (r: Self)
        ensures
            r@ == self@,
    {
        match self {
            Segment::ShellLine(t) => Segment::ShellLine(t.clone()),
            Segment::ScriptBlock(t) => Segment::ScriptBlock(t.clone()),
        }
    }
}

impl Segment {
    /// The text of the segment.
    pub fn text(&self) -> (r: &str)
        ensures
            r@ == text_of(self@),
    {
        match self {
            Segment::ShellLine(t) => t.as_str(),
            Segment::ScriptBlock(t) => t.as_str(),
        }
    }
}

/// The text of a segment.
pub open spec fn text_of(s: SegmentView) -> Seq<char> {
    match s {
        SegmentView::ShellLine(t) => t,
        SegmentView::ScriptBlock(t) => t,
    }
}

/// The line opens a script block.
pub open spec fn is_fence_open(line: Seq<char>) -> bool {
    trimmed(line) == "```ruby"@
}

/// The line closes a script block.
pub open spec fn is_fence_close(line: Seq<char>) -> bool {
    trimmed(line) == "```"@
}

/// The first index at or after `from` whose line closes a block, or
/// `lines.len()`.
pub open spec fn first_close(lines: Seq<Seq<char>>, from: int) -> int
    decreases lines.len() - from,
{
    if from < 0 || from >= lines.len() {
        lines.len() as int
    } else if is_fence_close(lines[from]) {
        from
    } else {
        first_close(lines, from + 1)
    }
}

/// The segment of one shell line, if the line is kept.
pub open spec fn shell_line(line: Seq<char>) -> Seq<SegmentView> {
    let t = trimmed(line);
    if t.len() == 0 || t[0] == '#' {
        Seq::empty()
    } else {
        seq![SegmentView::ShellLine(t)]
    }
}

/// The inside of the block between the fences at `open` and `close`.
pub open spec fn block(lines: Seq<Seq<char>>, open: int, close: int) -> SegmentView {
    SegmentView::ScriptBlock(trimmed(joined(lines.subrange(open + 1, close), seq!['\n'])))
}

/// The segments of the lines from index `i` on.
pub open spec fn segments_from(lines: Seq<Seq<char>>, i: int) -> Seq<SegmentView>
    decreases lines.len() - i,
{
    if i < 0 || i >= lines.len() {
        Seq::empty()
    } else {
        let close = first_close(lines, i + 1);
        if is_fence_open(lines[i]) && i < close < lines.len() {
            seq![block(lines, i, close)] + segments_from(lines, close + 1)
        } else {
            shell_line(lines[i]) + segments_from(lines, i + 1)
        }
    }
}

/// The segments of `body`.
pub open spec fn segmented(body: Seq<char>) -> Seq<SegmentView> {
    segments_from(lines(body), 0)
}

/// The shell lines of the lines from index `i` on, were there no blocks.
pub open spec fn shell_lines_from(lines: Seq<Seq<char>>, i: int) -> Seq<SegmentView>
    decreases lines.len() - i,
{
    if i < 0 || i >= lines.len() {
        Seq::empty()
    } else {
        shell_line(lines[i]) + shell_lines_from(lines, i + 1)
    }
}

/// `first_close` is the first line at or after `from` that closes a block.
pub proof fn lemma_first_close(lines: Seq<Seq<char>>, from: int)
    requires
        0 <= from <= lines.len(),
    ensures
        from <= first_close(lines, from) <= lines.len(),
        first_close(lines, from) < lines.len() ==> is_fence_close(
            lines[first_close(lines, from)],
        ),
        forall|k: int| from <= k < first_close(lines, from) ==> !is_fence_close(#[trigger] lines[k]),
    decreases lines.len() - from,
{
    if from < lines.len() && !is_fence_close(lines[from]) {
        lemma_first_close(lines, from + 1);
    }
}

/// A body in which no line opens a block is its kept lines, each a shell
/// line, in the order of the source.
pub proof fn lemma_no_fence(lines: Seq<Seq<char>>, i: int)
    requires
        0 <= i <= lines.len(),
        forall|k: int| 0 <= k < lines.len() ==> !is_fence_open(#[trigger] lines[k]),
    ensures
        segments_from(lines, i) == shell_lines_from(lines, i),
    decreases lines.len() - i,
{
    if i < lines.len() {
        lemma_no_fence(lines, i + 1);
    }
}

fn index_of_close(lines: &Vec<Vec<char>>, from: usize) -> (j: usize)
    requires
        from <= lines.len(),
    ensures
        j == first_close(views(lines@), from as int),
        from <= j <= lines.len(),
{
    let mut j: usize = from;
    while j < lines.len()
        invariant
            from <= j <= lines.len(),
            first_close(views(lines@), j as int) == first_close(views(lines@), from as int),
        decreases lines.len() - j,
    {
        if same_text(trim(lines[j].as_slice()), "```") {
            return j;
        }
        j += 1;
    }
    j
}

fn join_lines(lines: &Vec<Vec<char>>, a: usize, b: usize) -> (r: Vec<char>)
    requires
        a <= b <= lines.len(),
    ensures
        r@ == joined(views(lines@).subrange(a as int, b as int), seq!['\n']),
{
    let mut out: Vec<char> = Vec::new();
    let mut i: usize = a;
    while i < b
        invariant
            a <= i <= b <= lines.len(),
            out@ == joined(views(lines@).subrange(a as int, i as int), seq!['\n']),
        decreases b - i,
    {
        let ghost all = views(lines@);
        if i > a {
            out.push('\n');
        }
        out.extend_from_slice(lines[i].as_slice());
        assert(all.subrange(a as int, i + 1).drop_last() =~= all.subrange(a as int, i as int));
        i += 1;
    }
    out
}

/// Splits `body` into its segments, in the order of the source.
pub fn split_source(body: &[char]) -> (r: Vec<Segment>)
    ensures
        views(r@) == segmented(body@),
{
    let rows = split_lines(body);
    let mut out: Vec<Segment> = Vec::new();
    let mut i: usize = 0;
    while i < rows.len()
        invariant
            i <= rows.len(),
            views(rows@) == lines(body@),
            views(out@) + segments_from(views(rows@), i as int) == segmented(body@),
        decreases rows.len() - i,
    {
        let line = trim(rows[i].as_slice());
        let close = if same_text(line, "```ruby") {
            index_of_close(&rows, i + 1)
        } else {
            rows.len()
        };
        if close < rows.len() {
            let inside = join_lines(&rows, i + 1, close);
            out.push(Segment::ScriptBlock(string_from_chars(trim(inside.as_slice()))));
            i = close + 1;
        } else {
            if line.len() > 0 && line[0] != '#' {
                out.push(Segment::ShellLine(string_from_chars(line)));
            }
            i += 1;
        }
    }
    out
}

/// Splits `body` into its segments, in the order of the source.
pub fn split_source_func(body: &str) -> (r: Vec<Segment>)
    ensures
        views(r@) == segmented(body@),
{
    let chars = crate::text::chars_of(body);
    split_source(chars.as_slice())
}

} // verus!

//! The directive parser: what one shell line asks for.
//!
//! A line that starts with `@` names a directive of the engine: `@set`,
//! `@pushd` or `@popd`. Any other line is a command for the shell.
use crate::failure::{
    labelled, span_pieces, Failure, FailureKind, FailureView, MatchRange,
};
use crate::nesting::span;
use crate::text::{
    chars_of, find_char, index_of, is_space, is_whitespace, same_text, string_from_chars, trim,
    trimmed,
};
use vstd::prelude::*;
use vstd::slice::slice_subrange;

verus! {

/// One action of a run.
#[derive(Debug, PartialEq, Eq)]
pub enum Directive {
    /// Set an environment variable for the rest of the run.
    SetEnv(String, String),
    /// Save the working directory and change to another.
    PushDir(String),
    /// Go back to the directory saved last.
    PopDir,
    /// Hand a command line to the shell.
    ShellCommand(String),
    /// Hand a script to the script engine.
    ScriptSource(String),
}

/// A directive, as the contracts see it.
pub enum DirectiveView {
    SetEnv(Seq<char>, Seq<char>),
    PushDir(Seq<char>),
    PopDir,
    ShellCommand(Seq<char>),
    ScriptSource(Seq<char>),
}

impl View for Directive {
    type V = DirectiveView;

    open spec fn view(&self) -> DirectiveView {
        match self {
            Directive::SetEnv(k, v) => DirectiveView::SetEnv(k@, v@),
            Directive::PushDir(p) => DirectiveView::PushDir(p@),
            Directive::PopDir => DirectiveView::PopDir,
            Directive::ShellCommand(c) => DirectiveView::ShellCommand(c@),
            Directive::ScriptSource(s) => DirectiveView::ScriptSource(s@),
        }
    }
}

impl Clone for Directive {
    fn clone(&self) -> (r: Self)
        ensures
            r@ == self@,
    {
        match self {
            Directive::SetEnv(k, v) => Directive::SetEnv(k.clone(), v.clone()),
            Directive::PushDir(p) => Directive::PushDir(p.clone()),
            Directive::PopDir => Directive::PopDir,
            Directive::ShellCommand(c) => Directive::ShellCommand(c.clone()),
            Directive::ScriptSource(s) => Directive::ScriptSource(s.clone()),
        }
    }
}

/// The first index at or after `i` that holds white space, or `s.len()`.
pub open spec fn word_end(s: Seq<char>, i: int) -> int
    decreases s.len() - i,
{
    if 0 <= i < s.len() && !is_space(s[i]) {
        word_end(s, i + 1)
    } else {
        i
    }
}

/// `word_end` is the end of the longest run without white space from `i` on.
pub proof fn lemma_word_end(s: Seq<char>, i: int)
    requires
        0 <= i <= s.len(),
    ensures
        i <= word_end(s, i) <= s.len(),
        forall|k: int| i <= k < word_end(s, i) ==> !is_space(#[trigger] s[k]),
        word_end(s, i) < s.len() ==> is_space(s[word_end(s, i)]),
    decreases s.len() - i,
{
    if i < s.len() && !is_space(s[i]) {
        lemma_word_end(s, i + 1);
    }
}

/// The failure of a malformed `@` line: the line is shown with its first
/// `end` characters marked.
pub open spec fn format_failure(detail: Seq<char>, line: Seq<char>, end: int) -> FailureView {
    FailureView {
        kind: FailureKind::DirectiveFormat,
        message: labelled("failed"@, detail + seq!['\n', '\n']) + span_pieces(
            line,
            seq![span(0, end)],
            0,
        ),
        decorated: true,
    }
}

/// What follows the keyword that ends at `k`: the rest of the first line,
/// trimmed.
pub open spec fn argument(line: Seq<char>, k: int) -> Seq<char> {
    trimmed(line.subrange(k, find_char(line, '\n', k)))
}

/// The directive of `@set` with the argument `value`: the key is what stands
/// before the first `=`, trimmed, and the value is all that follows it.
pub open spec fn parsed_set(line: Seq<char>, value: Seq<char>) -> Result<
    DirectiveView,
    FailureView,
> {
    let eq = find_char(value, '=', 0);
    if eq == 0 || eq >= value.len() {
        Err(format_failure("illegal @set format"@, line, 4))
    } else {
        Ok(
            DirectiveView::SetEnv(
                trimmed(value.subrange(0, eq)),
                value.subrange(eq + 1, value.len() as int),
            ),
        )
    }
}

/// What `line` asks for.
pub open spec fn parsed(line: Seq<char>) -> Result<DirectiveView, FailureView> {
    if line.len() == 0 || line[0] != '@' {
        Ok(DirectiveView::ShellCommand(line))
    } else {
        let k = word_end(line, 1);
        let key = line.subrange(0, k);
        let value = argument(line, k);
        if k == 1 {
            Err(format_failure("illegal @command format"@, line, 1))
        } else if key == "@set"@ {
            parsed_set(line, value)
        } else if key == "@pushd"@ {
            if value.len() == 0 {
                Err(format_failure("@pushd path is none"@, line, 6))
            } else {
                Ok(DirectiveView::PushDir(value))
            }
        } else if key == "@popd"@ {
            if value.len() > 0 {
                Err(format_failure("@popd unknown args"@, line, 5))
            } else {
                Ok(DirectiveView::PopDir)
            }
        } else {
            Err(format_failure(key + " is unknown @command"@, line, k))
        }
    }
}

fn end_of_word(s: &[char], from: usize) -> (i: usize)
    requires
        from <= s.len(),
    ensures
        i == word_end(s@, from as int),
        from <= i <= s.len(),
{
    let mut i: usize = from;
    while i < s.len() && !is_whitespace(s[i])
        invariant
            from <= i <= s.len(),
            word_end(s@, i as int) == word_end(s@, from as int),
        decreases s.len() - i,
    {
        i += 1;
    }
    i
}

fn format_error(detail: &[char], line: &[char], end: usize) -> (f: Failure)
    requires
        end <= line.len(),
    ensures
        f@ == format_failure(detail@, line@, end as int),
{
    let mut spans: Vec<MatchRange> = Vec::new();
    spans.push(MatchRange { start: 0, end });
    Failure::with_spans(FailureKind::DirectiveFormat, "failed", detail, line, &spans)
}

fn parse_set(line: &[char], value: &[char]) -> (r: Result<Directive, Failure>)
    requires
        line@.len() >= 4,
    ensures
        match r {
            Ok(d) => parsed_set(line@, value@) == Ok::<DirectiveView, FailureView>(d@),
            Err(f) => parsed_set(line@, value@) == Err::<DirectiveView, FailureView>(f@),
        },
{
    let eq = index_of(value, '=', 0);
    if eq == 0 || eq >= value.len() {
        let detail = chars_of("illegal @set format");
        return Err(format_error(detail.as_slice(), line, 4));
    }
    let key = trim(slice_subrange(value, 0, eq));
    let rest = slice_subrange(value, eq + 1, value.len());
    Ok(Directive::SetEnv(string_from_chars(key), string_from_chars(rest)))
}

/// What `line` asks for.
pub fn parse_chars(line: &[char]) -> (r: Result<Directive, Failure>)
    ensures
        match r {
            Ok(d) => parsed(line@) == Ok::<DirectiveView, FailureView>(d@),
            Err(f) => parsed(line@) == Err::<DirectiveView, FailureView>(f@),
        },
{
    if line.len() == 0 || line[0] != '@' {
        return Ok(Directive::ShellCommand(string_from_chars(line)));
    }
    let k = end_of_word(line, 1);
    if k == 1 {
        let detail = chars_of("illegal @command format");
        return Err(format_error(detail.as_slice(), line, 1));
    }
    let key = slice_subrange(line, 0, k);
    let value = trim(slice_subrange(line, k, index_of(line, '\n', k)));
    if same_text(key, "@set") {
        proof {
            reveal_strlit("@set");
        }
        parse_set(line, value)
    } else if same_text(key, "@pushd") {
        proof {
            reveal_strlit("@pushd");
        }
        if value.len() == 0 {
            let detail = chars_of("@pushd path is none");
            Err(format_error(detail.as_slice(), line, 6))
        } else {
            Ok(Directive::PushDir(string_from_chars(value)))
        }
    } else if same_text(key, "@popd") {
        proof {
            reveal_strlit("@popd");
        }
        if value.len() > 0 {
            let detail = chars_of("@popd unknown args");
            Err(format_error(detail.as_slice(), line, 5))
        } else {
            Ok(Directive::PopDir)
        }
    } else {
        let mut detail: Vec<char> = Vec::new();
        detail.extend_from_slice(key);
        let tail = chars_of(" is unknown @command");
        detail.extend_from_slice(tail.as_slice());
        assert(detail@ =~= key@ + " is unknown @command"@);
        Err(format_error(detail.as_slice(), line, k))
    }
}

/// What `line` asks for: a directive of the engine where the line starts
/// with `@`, a command for the shell otherwise.
pub fn parse_cmd_type(line: &str) -> (r: Result<Directive, Failure>)
    ensures
        match r {
            Ok(d) => parsed(line@) == Ok::<DirectiveView, FailureView>(d@),
            Err(f) => parsed(line@) == Err::<DirectiveView, FailureView>(f@),
        },
{
    let chars = chars_of(line);
    parse_chars(chars.as_slice())
}

} // verus!

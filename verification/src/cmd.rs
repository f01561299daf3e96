//! Command lines: how one is split into arguments for the shell, and what
//! the outcome of a command means for the run.
use crate::encode::{decoded, to_utf8_string};
use crate::failure::{labelled, plain, Failure, FailureKind, FailureView};
use crate::text::{
    chars_of, push_signed_decimal, signed_decimal, string_from_chars, trim, trimmed, views,
};
use vstd::prelude::*;

verus! {

/// What the splitter holds while it reads a command line.
pub struct Splitting {
    /// The arguments that are complete.
    pub words: Seq<Seq<char>>,
    /// The argument in the making.
    pub word: Seq<char>,
    /// A backslash was read and waits for a backslash or a quote.
    pub escape: bool,
    /// A quote is open: a space belongs to the argument.
    pub quoted: bool,
}

/// The state before anything is read.
pub open spec fn no_splitting() -> Splitting {
    Splitting { words: Seq::empty(), word: Seq::empty(), escape: false, quoted: false }
}

/// The state after reading `c`.
///
/// A space ends the argument in the making, unless a quote is open. A
/// backslash waits; a second backslash then stands for itself, and a quote
/// after it is a quote of the argument. A quote that is not escaped opens or
/// closes. Every other character belongs to the argument, and leaves a
/// waiting backslash waiting.
pub open spec fn split_step(st: Splitting, c: char) -> Splitting {
    if c == ' ' {
        if st.quoted {
            Splitting { word: st.word.push(c), ..st }
        } else if st.word.len() > 0 {
            Splitting { words: st.words.push(st.word), word: Seq::empty(), ..st }
        } else {
            st
        }
    } else if c == '\\' {
        if st.escape {
            Splitting { word: st.word.push(c), escape: false, ..st }
        } else {
            Splitting { escape: true, ..st }
        }
    } else if c == '"' {
        if st.escape {
            Splitting { word: st.word.push(c), escape: false, ..st }
        } else {
            Splitting { quoted: !st.quoted, ..st }
        }
    } else {
        Splitting { word: st.word.push(c), ..st }
    }
}

/// The state after reading the first `n` characters of `s`.
pub open spec fn split_state(s: Seq<char>, n: int) -> Splitting
    decreases n,
{
    if n <= 0 {
        no_splitting()
    } else {
        split_step(split_state(s, n - 1), s[n - 1])
    }
}

/// The arguments of the command line `s`.
pub open spec fn split_words(s: Seq<char>) -> Seq<Seq<char>> {
    let st = split_state(s, s.len() as int);
    if st.word.len() > 0 {
        st.words.push(st.word)
    } else {
        st.words
    }
}

/// Splits a command line into its arguments.
pub fn split_chars(cmd: &[char]) -> (r: Vec<String>)
    ensures
        views(r@) == split_words(cmd@),
{
    let mut words: Vec<String> = Vec::new();
    let mut word: Vec<char> = Vec::new();
    let mut escape = false;
    let mut quoted = false;
    let mut i: usize = 0;
    while i < cmd.len()
        invariant
            i <= cmd.len(),
            split_state(cmd@, i as int).words == views(words@),
            split_state(cmd@, i as int).word == word@,
            split_state(cmd@, i as int).escape == escape,
            split_state(cmd@, i as int).quoted == quoted,
        decreases cmd.len() - i,
    {
        let c = cmd[i];
        if c == ' ' {
            if quoted {
                word.push(c);
            } else if word.len() > 0 {
                words.push(string_from_chars(word.as_slice()));
                word = Vec::new();
            }
        } else if c == '\\' {
            if escape {
                word.push(c);
                escape = false;
            } else {
                escape = true;
            }
        } else if c == '"' {
            if escape {
                word.push(c);
                escape = false;
            } else {
                quoted = !quoted;
            }
        } else {
            word.push(c);
        }
        i += 1;
    }
    if word.len() > 0 {
        words.push(string_from_chars(word.as_slice()));
    }
    words
}

/// Splits a command line into its arguments: at spaces, but for those
/// between quotes.
pub fn split_args(cmd: &str) -> (r: Vec<String>)
    ensures
        views(r@) == split_words(cmd@),
{
    let chars = chars_of(cmd);
    split_chars(chars.as_slice())
}

/// How a command ended.
#[derive(Clone, Copy, Debug, PartialEq, Eq, Structural)]
pub enum ExitOutcome {
    /// With status 0.
    Success,
    /// With another status.
    NonZero(i32),
    /// Without a status.
    Abnormal,
}

/// What a command that was run for its output left behind.
#[derive(Debug, PartialEq, Eq)]
pub struct CapturedOutput {
    pub success: bool,
    pub stdout: Vec<u8>,
    pub stderr: Vec<u8>,
}

/// What a captured command left behind, as the contracts see it.
pub struct CapturedOutputView {
    pub success: bool,
    pub stdout: Seq<u8>,
    pub stderr: Seq<u8>,
}

impl View for CapturedOutput {
    type V = CapturedOutputView;

    open spec fn view(&self) -> CapturedOutputView {
        CapturedOutputView { success: self.success, stdout: self.stdout@, stderr: self.stderr@ }
    }
}

/// The failure with the message `text`, as it stands.
pub open spec fn said(kind: FailureKind, text: Seq<char>) -> FailureView {
    FailureView { kind, message: seq![plain(text)], decorated: false }
}

/// The failure of an execution, announced as such.
pub open spec fn failed(detail: Seq<char>) -> FailureView {
    FailureView {
        kind: FailureKind::Execution,
        message: labelled("failed"@, detail),
        decorated: false,
    }
}

/// The failure of output that is no text.
pub open spec fn undecodable() -> FailureView {
    failed("command output is neither Shift_JIS nor UTF-8"@)
}

/// What a captured command stands for, given the text of the stream that
/// counts: the trimmed text of its output where it succeeded; a failure with
/// the text of its error stream where it did not.
pub open spec fn captured_text(success: bool, text: Option<Seq<char>>) -> Result<
    Seq<char>,
    FailureView,
> {
    match text {
        None => Err(undecodable()),
        Some(t) => if success {
            Ok(trimmed(t))
        } else {
            Err(said(FailureKind::Execution, t))
        },
    }
}

/// What a captured command stands for.
pub open spec fn captured(out: CapturedOutputView) -> Result<Seq<char>, FailureView> {
    captured_text(
        out.success,
        decoded(
            if out.success {
                out.stdout
            } else {
                out.stderr
            },
        ),
    )
}

/// The replacement for a captured command, given the text of the stream
/// that counts.
pub fn capture_text(success: bool, text: Option<&str>) -> (r: Result<String, Failure>)
    ensures
        match r {
            Ok(t) => captured_text(success, crate::path::option_str(text)) == Ok::<
                Seq<char>,
                FailureView,
            >(t@),
            Err(f) => captured_text(success, crate::path::option_str(text)) == Err::<
                Seq<char>,
                FailureView,
            >(f@),
        },
{
    match text {
        None => {
            let detail = chars_of("command output is neither Shift_JIS nor UTF-8");
            Err(Failure::labelled(FailureKind::Execution, "failed", detail.as_slice()))
        },
        Some(t) => {
            if success {
                let chars = chars_of(t);
                Ok(string_from_chars(trim(chars.as_slice())))
            } else {
                Err(Failure::plain(FailureKind::Execution, t))
            }
        },
    }
}

/// The replacement for a captured command: what it printed, trimmed, where
/// it succeeded; a failure that says what it printed to its error stream
/// where it did not.
pub fn command_output(out: &CapturedOutput) -> (r: Result<String, Failure>)
    ensures
        match r {
            Ok(t) => captured(out@) == Ok::<Seq<char>, FailureView>(t@),
            Err(f) => captured(out@) == Err::<Seq<char>, FailureView>(f@),
        },
{
    let text = if out.success {
        to_utf8_string(out.stdout.as_slice())
    } else {
        to_utf8_string(out.stderr.as_slice())
    };
    match &text {
        Some(t) => capture_text(out.success, Some(t.as_str())),
        None => capture_text(out.success, None),
    }
}

/// How the status of a command reads.
pub open spec fn status_text(outcome: ExitOutcome) -> Seq<char> {
    match outcome {
        ExitOutcome::Success => "exit code: 0"@,
        ExitOutcome::NonZero(code) => "exit code: "@ + signed_decimal(code as int),
        ExitOutcome::Abnormal => "terminated abnormally"@,
    }
}

/// What the end of a command means: anything but success is a failure that
/// names the status.
pub open spec fn spawned(outcome: ExitOutcome) -> Result<(), FailureView> {
    match outcome {
        ExitOutcome::Success => Ok(()),
        _ => Err(failed(status_text(outcome))),
    }
}

/// What the end of a command means for the run: anything but success is a
/// failure that names the status.
pub fn command_spawn(outcome: ExitOutcome) -> (r: Result<(), Failure>)
    ensures
        match r {
            Ok(_) => spawned(outcome) is Ok,
            Err(f) => spawned(outcome) == Err::<(), FailureView>(f@),
        },
{
    match outcome {
        ExitOutcome::Success => Ok(()),
        ExitOutcome::NonZero(code) => {
            let mut detail = chars_of("exit code: ");
            push_signed_decimal(&mut detail, code as i64);
            Err(Failure::labelled(FailureKind::Execution, "failed", detail.as_slice()))
        },
        ExitOutcome::Abnormal => {
            let detail = chars_of("terminated abnormally");
            Err(Failure::labelled(FailureKind::Execution, "failed", detail.as_slice()))
        },
    }
}

} // verus!

//! A run of an alias body, as a machine.
//!
//! The engine decides; its caller acts. `Run::new` expands the positional
//! tokens and cuts the body into segments. Each `step` takes what the last
//! action brought and answers with the next action: a command to capture or
//! an expression to evaluate while a segment still holds inline
//! substitutions, then the effect of the directive that the segment has
//! become. The first failure ends the run: no later step asks for anything.
use crate::args::{substitute_args, substituted, InvocationArgs};
use crate::cmd::{
    captured, command_output, command_spawn, failed, said, spawned, split_chars, split_words,
    CapturedOutput, CapturedOutputView, ExitOutcome,
};
use crate::directive::{parse_chars, parsed, Directive, DirectiveView};
use crate::failure::{
    decorated_with, labelled, Failure, FailureKind, FailureView, MatchRange,
};
use crate::inline::{kind_of, lemma_next_inline, source_of, InlineKind, Substitution};
use crate::nesting::{nesting_failure, validate_chars, violations};
use crate::repl::{lemma_innermost, nested, nested_match, splice, spliced, Pattern};
use crate::script::{display_chars, displayed, ScriptValue};
use crate::args::next_token;
use crate::segment::{
    is_fence_open, lemma_no_fence, segmented, shell_line, shell_lines_from, split_source, text_of,
    Segment, SegmentView,
};
use crate::text::{chars_of, lines, string_from_chars, trimmed, views};
use vstd::prelude::*;
use vstd::slice::slice_subrange;

verus! {

/// What the caller is asked to do.
#[derive(Debug, PartialEq, Eq)]
pub enum Action {
    /// Run the command with these arguments and capture what it prints.
    Capture(Vec<String>),
    /// Evaluate the expression and hand back its value.
    Evaluate(String),
    /// Set the environment variable, for the run and for what it starts.
    SetEnv(String, String),
    /// Change to the directory, and hand back the directory left.
    ChangeDir(String),
    /// Change back to the directory.
    RestoreDir(String),
    /// Run the command with these arguments and hand back how it ended.
    Spawn(Vec<String>),
    /// Run the script.
    RunScript(String),
}

/// An action, as the contracts see it.
pub enum ActionView {
    Capture(Seq<Seq<char>>),
    Evaluate(Seq<char>),
    SetEnv(Seq<char>, Seq<char>),
    ChangeDir(Seq<char>),
    RestoreDir(Seq<char>),
    Spawn(Seq<Seq<char>>),
    RunScript(Seq<char>),
}

impl View for Action {
    type V = ActionView;

    open spec fn view(&self) -> ActionView {
        match self {
            Action::Capture(a) => ActionView::Capture(views(a@)),
            Action::Evaluate(s) => ActionView::Evaluate(s@),
            Action::SetEnv(k, v) => ActionView::SetEnv(k@, v@),
            Action::ChangeDir(p) => ActionView::ChangeDir(p@),
            Action::RestoreDir(p) => ActionView::RestoreDir(p@),
            Action::Spawn(a) => ActionView::Spawn(views(a@)),
            Action::RunScript(s) => ActionView::RunScript(s@),
        }
    }
}

/// What the last action brought.
#[derive(Debug, PartialEq, Eq)]
pub enum Event {
    /// Nothing yet: the run begins.
    Start,
    /// The action is done and has nothing to hand back.
    Done,
    /// What the captured command left behind.
    Captured(CapturedOutput),
    /// The value of the expression.
    Evaluated(ScriptValue),
    /// The directory was changed; this is the one left.
    DirChanged(String),
    /// How the command ended.
    Exited(ExitOutcome),
    /// The action could not be carried out; this is why.
    Failed(String),
}

/// An event, as the contracts see it.
pub enum EventView {
    Start,
    Done,
    Captured(CapturedOutputView),
    Evaluated(ScriptValue),
    DirChanged(Seq<char>),
    Exited(ExitOutcome),
    Failed(Seq<char>),
}

impl View for Event {
    type V = EventView;

    open spec fn view(&self) -> EventView {
        match self {
            Event::Start => EventView::Start,
            Event::Done => EventView::Done,
            Event::Captured(out) => EventView::Captured(out@),
            Event::Evaluated(v) => EventView::Evaluated(*v),
            Event::DirChanged(p) => EventView::DirChanged(p@),
            Event::Exited(o) => EventView::Exited(*o),
            Event::Failed(m) => EventView::Failed(m@),
        }
    }
}

/// The answer of the machine.
#[derive(Debug, PartialEq, Eq)]
pub enum Step {
    /// Do this, and come back with what it brought.
    Do(Action),
    /// Every directive is done.
    Finished,
    /// The run has failed.
    Failed(Failure),
    /// The run was over before this step.
    Stopped,
}

/// An answer of the machine, as the contracts see it.
pub enum StepView {
    Do(ActionView),
    Finished,
    Failed(FailureView),
    Stopped,
}

impl View for Step {
    type V = StepView;

    open spec fn view(&self) -> StepView {
        match self {
            Step::Do(a) => StepView::Do(a@),
            Step::Finished => StepView::Finished,
            Step::Failed(f) => StepView::Failed(f@),
            Step::Stopped => StepView::Stopped,
        }
    }
}

/// Where a run stands.
pub enum PhaseView {
    /// Between segments.
    Idle,
    /// The text of the segment in work waits for the replacement of this span.
    Resolving(Seq<char>, MatchRange),
    /// The effect of this directive is awaited.
    Acting(DirectiveView),
    /// Finished or failed.
    Over,
}

/// The state of a run, as the contracts see it.
pub struct RunView {
    /// The segments of the body.
    pub segments: Seq<SegmentView>,
    /// The index of the segment in work, or of the next one.
    pub next: int,
    pub phase: PhaseView,
    /// The directories saved by `@pushd`, the oldest first.
    pub stack: Seq<Seq<char>>,
}

/// The segments of `body` for the invocation `args`: the positional tokens
/// are replaced, and the text that results is segmented as it stands.
pub open spec fn prepared(body: Seq<char>, args: &InvocationArgs) -> Result<
    Seq<SegmentView>,
    FailureView,
> {
    match substituted(body, args) {
        Ok(text) => Ok(segmented(text)),
        Err(f) => Err(f),
    }
}

/// The run, over.
pub open spec fn over(run: RunView) -> RunView {
    RunView { phase: PhaseView::Over, ..run }
}

/// The run fails with `f`.
pub open spec fn fail(run: RunView, f: FailureView) -> (RunView, StepView) {
    (over(run), StepView::Failed(f))
}

/// The failure of an event that answers no action of the machine.
pub open spec fn unexpected() -> FailureView {
    failed("unexpected event"@)
}

/// The failure of `@popd` with no directory saved.
pub open spec fn underflow() -> FailureView {
    failed("@popd: directory stack empty"@)
}

/// The failure of the script engine on `source`.
pub open spec fn script_failure(message: Seq<char>, source: Seq<char>) -> FailureView {
    FailureView {
        kind: FailureKind::Script,
        message: labelled("mruby failed"@, message + seq!['\n', '\n'] + source),
        decorated: false,
    }
}

/// What is asked for to resolve the substitution at `m`.
pub open spec fn request(text: Seq<char>, m: MatchRange) -> ActionView {
    match kind_of(text, m) {
        InlineKind::Command => ActionView::Capture(split_words(source_of(text, m))),
        InlineKind::Script => ActionView::Evaluate(source_of(text, m)),
    }
}

/// The directive of a segment whose text has become `text`.
pub open spec fn classified(segment: SegmentView, text: Seq<char>) -> Result<
    DirectiveView,
    FailureView,
> {
    match segment {
        SegmentView::ShellLine(_) => parsed(text),
        SegmentView::ScriptBlock(_) => Ok(DirectiveView::ScriptSource(text)),
    }
}

/// The effect of `d` is asked for. `@popd` with no directory saved fails at
/// once, and asks for nothing.
pub open spec fn act(run: RunView, d: DirectiveView) -> (RunView, StepView) {
    let acting = RunView { phase: PhaseView::Acting(d), ..run };
    match d {
        DirectiveView::SetEnv(k, v) => (acting, StepView::Do(ActionView::SetEnv(k, v))),
        DirectiveView::PushDir(p) => (acting, StepView::Do(ActionView::ChangeDir(p))),
        DirectiveView::PopDir => if run.stack.len() == 0 {
            fail(run, underflow())
        } else {
            (
                RunView { stack: run.stack.drop_last(), ..acting },
                StepView::Do(ActionView::RestoreDir(run.stack.last())),
            )
        },
        DirectiveView::ShellCommand(c) => (
            acting,
            StepView::Do(ActionView::Spawn(split_words(c))),
        ),
        DirectiveView::ScriptSource(s) => (acting, StepView::Do(ActionView::RunScript(s))),
    }
}

/// The segment in work has the text `text`: its innermost substitution is
/// asked for, or, where none is left, the effect of its directive.
pub open spec fn resolve(run: RunView, text: Seq<char>) -> (RunView, StepView) {
    match nested(&Substitution, text) {
        Some(m) => (
            RunView { phase: PhaseView::Resolving(text, m), ..run },
            StepView::Do(request(text, m)),
        ),
        None => match classified(run.segments[run.next], text) {
            Ok(d) => act(run, d),
            Err(f) => fail(run, f),
        },
    }
}

/// The segment at `run.next` is taken up; the run is finished where there
/// is none.
pub open spec fn begin(run: RunView) -> (RunView, StepView) {
    if run.next < 0 || run.next >= run.segments.len() {
        (over(run), StepView::Finished)
    } else {
        let text = text_of(run.segments[run.next]);
        if violations(text).len() > 0 {
            fail(run, nesting_failure(text))
        } else {
            resolve(run, text)
        }
    }
}

/// The directive in work is done: on to the next segment.
pub open spec fn advance(run: RunView) -> (RunView, StepView) {
    begin(RunView { next: run.next + 1, phase: PhaseView::Idle, ..run })
}

/// The substitution at `m` has brought `outcome`.
pub open spec fn resolved_with(
    run: RunView,
    text: Seq<char>,
    m: MatchRange,
    outcome: Result<Seq<char>, FailureView>,
) -> (RunView, StepView) {
    match outcome {
        Ok(replacement) => resolve(run, spliced(text, m, replacement)),
        Err(f) => fail(run, decorated_with(f, text, m)),
    }
}

/// What the event means while the substitution at `m` is awaited.
pub open spec fn stepped_resolving(run: RunView, text: Seq<char>, m: MatchRange, event: EventView) -> (
    RunView,
    StepView,
) {
    match (kind_of(text, m), event) {
        (InlineKind::Command, EventView::Captured(out)) => resolved_with(
            run,
            text,
            m,
            captured(out),
        ),
        (InlineKind::Script, EventView::Evaluated(v)) => resolved_with(run, text, m, displayed(v)),
        (InlineKind::Command, EventView::Failed(why)) => resolved_with(
            run,
            text,
            m,
            Err(said(FailureKind::Execution, why)),
        ),
        (InlineKind::Script, EventView::Failed(why)) => resolved_with(
            run,
            text,
            m,
            Err(script_failure(why, source_of(text, m))),
        ),
        _ => fail(run, unexpected()),
    }
}

/// What the event means while the effect of `d` is awaited.
pub open spec fn stepped_acting(run: RunView, d: DirectiveView, event: EventView) -> (
    RunView,
    StepView,
) {
    match (d, event) {
        (DirectiveView::SetEnv(_, _), EventView::Done) => advance(run),
        (DirectiveView::PushDir(_), EventView::DirChanged(left)) => advance(
            RunView { stack: run.stack.push(left), ..run },
        ),
        (DirectiveView::PushDir(p), EventView::Failed(why)) => fail(
            run,
            failed("@pushd "@ + p + ": "@ + why),
        ),
        (DirectiveView::PopDir, EventView::Done) => advance(run),
        (DirectiveView::PopDir, EventView::Failed(why)) => fail(run, failed("@popd: "@ + why)),
        (DirectiveView::ShellCommand(_), EventView::Exited(outcome)) => match spawned(outcome) {
            Ok(_) => advance(run),
            Err(f) => fail(run, f),
        },
        (DirectiveView::ScriptSource(_), EventView::Done) => advance(run),
        (DirectiveView::ScriptSource(s), EventView::Failed(why)) => fail(
            run,
            script_failure(why, s),
        ),
        (_, EventView::Failed(why)) => fail(run, said(FailureKind::Execution, why)),
        _ => fail(run, unexpected()),
    }
}

/// The run between two segments.
pub open spec fn idle(run: RunView) -> RunView {
    RunView { phase: PhaseView::Idle, ..run }
}

/// The state after `event`, and the answer to it. A run that is over stays
/// as it is and asks for nothing.
pub open spec fn stepped(run: RunView, event: EventView) -> (RunView, StepView) {
    match run.phase {
        PhaseView::Idle => match event {
            EventView::Start => begin(run),
            _ => fail(run, unexpected()),
        },
        PhaseView::Resolving(text, m) => stepped_resolving(idle(run), text, m, event),
        PhaseView::Acting(d) => stepped_acting(idle(run), d, event),
        PhaseView::Over => (run, StepView::Stopped),
    }
}

/// The directories that `@pushd` has saved and `@popd` has not yet gone back
/// to.
pub struct DirectoryStack {
    dirs: Vec<String>,
}

impl View for DirectoryStack {
    type V = Seq<Seq<char>>;

    /// The directories, the oldest first.
    closed spec fn view(&self) -> Seq<Seq<char>> {
        views(self.dirs@)
    }
}

impl DirectoryStack {
    /// A stack with no directory.
    pub fn new() -> (r: DirectoryStack)
        ensures
            r@ == Seq::<Seq<char>>::empty(),
    {
        DirectoryStack { dirs: Vec::new() }
    }

    /// The number of directories saved.
    pub fn depth(&self) -> (n: usize)
        ensures
            n == self@.len(),
    {
        self.dirs.len()
    }

    /// Saves `left`, the directory that was left.
    pub fn pushd(&mut self, left: String)
        ensures
            final(self)@ == old(self)@.push(left@),
    {
        self.dirs.push(left);
    }

    /// Takes back the directory saved last. With none saved this fails, and
    /// the stack stays empty.
    pub fn popd(&mut self) -> (r: Result<String, Failure>)
        ensures
            match r {
                Ok(dir) => old(self)@.len() > 0 && dir@ == old(self)@.last() && final(self)@ == old(
                    self,
                )@.drop_last(),
                Err(f) => old(self)@.len() == 0 && final(self)@ == old(self)@ && f@ == underflow(),
            },
    {
        match self.dirs.pop() {
            Some(dir) => Ok(dir),
            None => {
                let detail = chars_of("@popd: directory stack empty");
                Err(Failure::labelled(FailureKind::Execution, "failed", detail.as_slice()))
            },
        }
    }
}

enum Phase {
    Idle,
    Resolving(Vec<char>, MatchRange),
    Acting(Directive),
    Over,
}

impl View for Phase {
    type V = PhaseView;

    closed spec fn view(&self) -> PhaseView {
        match self {
            Phase::Idle => PhaseView::Idle,
            Phase::Resolving(text, m) => PhaseView::Resolving(text@, *m),
            Phase::Acting(d) => PhaseView::Acting(d@),
            Phase::Over => PhaseView::Over,
        }
    }
}

/// A run of one alias body.
pub struct Run {
    segments: Vec<Segment>,
    next: usize,
    phase: Phase,
    stack: DirectoryStack,
}

impl View for Run {
    type V = RunView;

    closed spec fn view(&self) -> RunView {
        RunView {
            segments: views(self.segments@),
            next: self.next as int,
            phase: self.phase@,
            stack: self.stack@,
        }
    }
}

/// The span holds a substitution with both its delimiters.
spec fn delimited(text: Seq<char>, m: MatchRange) -> bool {
    &&& m.start < m.end <= text.len()
    &&& text[m.start as int] == '$' ==> m.start + 3 <= m.end
    &&& text[m.start as int] != '$' ==> m.start + 5 <= m.end
}

proof fn lemma_nested_delimited(text: Seq<char>)
    requires
        text.len() <= usize::MAX,
    ensures
        nested(&Substitution, text) matches Some(m) ==> delimited(text, m),
{
    let p = Substitution;
    p.lemma_first_match(text, 0);
    if let Some(first) = p.first_match(text, 0) {
        lemma_innermost(&p, text, first, 0);
        let m = nested(&p, text)->0;
        let at = choose|at: int| 0 <= at <= m.start && p.first_match(text, at) == Some(m);
        lemma_next_inline(text, at);
    }
}

impl Run {
    #[verifier::type_invariant]
    spec fn wf(self) -> bool {
        &&& self.next <= self.segments@.len()
        &&& match self.phase {
            Phase::Resolving(text, m) => self.next < self.segments@.len() && delimited(text@, m),
            Phase::Acting(_) => self.next < self.segments@.len(),
            _ => true,
        }
    }

    /// Prepares the run of `body` for the invocation `args`: replaces the
    /// positional tokens and cuts the result into segments. The run has not
    /// begun: it waits for `Event::Start`.
    pub fn new(body: &str, args: &InvocationArgs) -> (r: Result<Run, Failure>)
        ensures
            match r {
                Ok(run) => prepared(body@, args) == Ok::<Seq<SegmentView>, FailureView>(
                    run@.segments,
                ) && run@.next == 0 && run@.phase == PhaseView::Idle && run@.stack.len() == 0,
                Err(f) => prepared(body@, args) == Err::<Seq<SegmentView>, FailureView>(f@),
            },
    {
        let chars = chars_of(body);
        match substitute_args(chars.as_slice(), args) {
            Ok(text) => {
                let segments = split_source(text.as_slice());
                Ok(Run { segments, next: 0, phase: Phase::Idle, stack: DirectoryStack::new() })
            },
            Err(f) => Err(f),
        }
    }

    /// The segments of the body, in the order of the source.
    pub fn segments(&self) -> (r: &Vec<Segment>)
        ensures
            views(r@) == self@.segments,
    {
        &self.segments
    }

    /// The number of directories saved by `@pushd`.
    pub fn depth(&self) -> (n: usize)
        ensures
            n == self@.stack.len(),
    {
        self.stack.depth()
    }

    /// Whether the run is finished or has failed.
    pub fn is_over(&self) -> (b: bool)
        ensures
            b == (self@.phase == PhaseView::Over),
    {
        match self.phase {
            Phase::Over => true,
            _ => false,
        }
    }

    fn fail(self, f: Failure) -> (r: (Run, Step))
        ensures
            (r.0@, r.1@) == fail(self@, f@),
    {
        proof {
            use_type_invariant(&self);
        }
        let Run { segments, next, phase: _, stack } = self;
        (Run { segments, next, phase: Phase::Over, stack }, Step::Failed(f))
    }

    fn act(self, d: Directive) -> (r: (Run, Step))
        requires
            self.next < self.segments@.len(),
        ensures
            (r.0@, r.1@) == act(self@, d@),
    {
        let Run { segments, next, phase: _, stack } = self;
        let mut stack = stack;
        let action = match &d {
            Directive::SetEnv(k, v) => Action::SetEnv(k.clone(), v.clone()),
            Directive::PushDir(p) => Action::ChangeDir(p.clone()),
            Directive::PopDir => match stack.popd() {
                Ok(dir) => Action::RestoreDir(dir),
                Err(f) => {
                    return (
                        Run { segments, next, phase: Phase::Over, stack },
                        Step::Failed(f),
                    );
                },
            },
            Directive::ShellCommand(c) => {
                let chars = chars_of(c.as_str());
                Action::Spawn(split_chars(chars.as_slice()))
            },
            Directive::ScriptSource(s) => Action::RunScript(s.clone()),
        };
        (Run { segments, next, phase: Phase::Acting(d), stack }, Step::Do(action))
    }

    fn resolve(self, text: Vec<char>) -> (r: (Run, Step))
        requires
            self.next < self.segments@.len(),
        ensures
            (r.0@, r.1@) == resolve(self@, text@),
    {
        proof {
            assert(text@.len() == text.len());
            lemma_nested_delimited(text@);
        }
        match nested_match(&Substitution, text.as_slice()) {
            Some(m) => {
                let action = if text[m.start] == '$' {
                    Action::Capture(
                        split_chars(slice_subrange(text.as_slice(), m.start + 2, m.end - 1)),
                    )
                } else {
                    Action::Evaluate(
                        string_from_chars(
                            slice_subrange(text.as_slice(), m.start + 3, m.end - 2),
                        ),
                    )
                };
                let Run { segments, next, phase: _, stack } = self;
                (Run { segments, next, phase: Phase::Resolving(text, m), stack }, Step::Do(action))
            },
            None => {
                let directive = match &self.segments[self.next] {
                    Segment::ShellLine(_) => parse_chars(text.as_slice()),
                    Segment::ScriptBlock(_) => Ok(
                        Directive::ScriptSource(string_from_chars(text.as_slice())),
                    ),
                };
                match directive {
                    Ok(d) => self.act(d),
                    Err(f) => self.fail(f),
                }
            },
        }
    }

    fn begin(self) -> (r: (Run, Step))
        ensures
            (r.0@, r.1@) == begin(self@),
    {
        proof {
            use_type_invariant(&self);
        }
        if self.next >= self.segments.len() {
            let Run { segments, next, phase: _, stack } = self;
            return (Run { segments, next, phase: Phase::Over, stack }, Step::Finished);
        }
        let text = chars_of(self.segments[self.next].text());
        match validate_chars(text.as_slice()) {
            Ok(_) => self.resolve(text),
            Err(f) => self.fail(f),
        }
    }

    fn advance(self) -> (r: (Run, Step))
        requires
            self.next < self.segments@.len(),
        ensures
            (r.0@, r.1@) == advance(self@),
    {
        let Run { segments, next, phase: _, stack } = self;
        assert(next < segments.len());
        let run = Run { segments, next: next + 1, phase: Phase::Idle, stack };
        run.begin()
    }

    fn resolved_with(self, text: Vec<char>, m: MatchRange, outcome: Result<Vec<char>, Failure>) -> (r:
        (Run, Step))
        requires
            self.next < self.segments@.len(),
            m.fits(text@.len() as int),
        ensures
            (r.0@, r.1@) == resolved_with(self@, text@, m, crate::exec::outcome_view(outcome)),
    {
        match outcome {
            Ok(replacement) => {
                let next_text = splice(text.as_slice(), m, replacement.as_slice());
                self.resolve(next_text)
            },
            Err(f) => self.fail(f.decorate(text.as_slice(), m)),
        }
    }

    fn unexpected(self) -> (r: (Run, Step))
        ensures
            (r.0@, r.1@) == fail(self@, unexpected()),
    {
        let detail = chars_of("unexpected event");
        self.fail(Failure::labelled(FailureKind::Execution, "failed", detail.as_slice()))
    }

    fn step_resolving(self, text: Vec<char>, m: MatchRange, event: Event) -> (r: (Run, Step))
        requires
            self.next < self.segments@.len(),
            delimited(text@, m),
        ensures
            (r.0@, r.1@) == stepped_resolving(self@, text@, m, event@),
    {
        let command = text[m.start] == '$';
        match event {
            Event::Captured(out) if command => {
                let outcome = match command_output(&out) {
                    Ok(t) => Ok(chars_of(t.as_str())),
                    Err(f) => Err(f),
                };
                self.resolved_with(text, m, outcome)
            },
            Event::Evaluated(v) if !command => {
                let outcome = display_chars(&v);
                self.resolved_with(text, m, outcome)
            },
            Event::Failed(why) => {
                let f = if command {
                    Failure::plain(FailureKind::Execution, why.as_str())
                } else {
                    script_error(
                        why.as_str(),
                        slice_subrange(text.as_slice(), m.start + 3, m.end - 2),
                    )
                };
                self.resolved_with(text, m, Err(f))
            },
            _ => self.unexpected(),
        }
    }

    fn step_acting(self, d: Directive, event: Event) -> (r: (Run, Step))
        requires
            self.next < self.segments@.len(),
        ensures
            (r.0@, r.1@) == stepped_acting(self@, d@, event@),
    {
        match (d, event) {
            (Directive::SetEnv(_, _), Event::Done) => self.advance(),
            (Directive::PushDir(_), Event::DirChanged(left)) => {
                let Run { segments, next, phase: _, stack } = self;
                let mut stack = stack;
                stack.pushd(left);
                let run = Run { segments, next, phase: Phase::Idle, stack };
                run.advance()
            },
            (Directive::PushDir(p), Event::Failed(why)) => {
                let mut detail = chars_of("@pushd ");
                let path = chars_of(p.as_str());
                detail.extend_from_slice(path.as_slice());
                detail.push(':');
                detail.push(' ');
                let w = chars_of(why.as_str());
                detail.extend_from_slice(w.as_slice());
                proof {
                    reveal_strlit(": ");
                    assert(detail@ =~= "@pushd "@ + p@ + ": "@ + why@);
                }
                self.fail(Failure::labelled(FailureKind::Execution, "failed", detail.as_slice()))
            },
            (Directive::PopDir, Event::Done) => self.advance(),
            (Directive::PopDir, Event::Failed(why)) => {
                let mut detail = chars_of("@popd: ");
                let w = chars_of(why.as_str());
                detail.extend_from_slice(w.as_slice());
                assert(detail@ =~= "@popd: "@ + why@);
                self.fail(Failure::labelled(FailureKind::Execution, "failed", detail.as_slice()))
            },
            (Directive::ShellCommand(_), Event::Exited(outcome)) => match command_spawn(outcome) {
                Ok(_) => self.advance(),
                Err(f) => self.fail(f),
            },
            (Directive::ScriptSource(_), Event::Done) => self.advance(),
            (Directive::ScriptSource(s), Event::Failed(why)) => {
                let source = chars_of(s.as_str());
                self.fail(script_error(why.as_str(), source.as_slice()))
            },
            (_, Event::Failed(why)) => self.fail(
                Failure::plain(FailureKind::Execution, why.as_str()),
            ),
            _ => self.unexpected(),
        }
    }

    /// Takes what the last action brought and answers with what to do next.
    /// The first step of a run takes `Event::Start`.
    pub fn step(self, event: Event) -> (r: (Run, Step))
        ensures
            (r.0@, r.1@) == stepped(self@, event@),
    {
        proof {
            use_type_invariant(&self);
        }
        let Run { segments, next, phase, stack } = self;
        match phase {
            Phase::Idle => {
                let run = Run { segments, next, phase: Phase::Idle, stack };
                match event {
                    Event::Start => run.begin(),
                    _ => run.unexpected(),
                }
            },
            Phase::Resolving(text, m) => {
                let run = Run { segments, next, phase: Phase::Idle, stack };
                run.step_resolving(text, m, event)
            },
            Phase::Acting(d) => {
                let run = Run { segments, next, phase: Phase::Idle, stack };
                run.step_acting(d, event)
            },
            Phase::Over => (Run { segments, next, phase: Phase::Over, stack }, Step::Stopped),
        }
    }
}

/// What the start of a run brings: the prepared run after its first step,
/// and the answer of that step.
pub open spec fn started(body: Seq<char>, args: &InvocationArgs) -> Result<
    (RunView, StepView),
    FailureView,
> {
    match prepared(body, args) {
        Ok(segments) => Ok(
            begin(
                RunView { segments, next: 0, phase: PhaseView::Idle, stack: Seq::empty() },
            ),
        ),
        Err(f) => Err(f),
    }
}

/// Starts the run of the body `alias_value` for the invocation `args`:
/// prepares it and takes the first step. What comes back is the machine and
/// its first answer; the caller carries the answer out and goes on with
/// `Run::step`.
pub fn run(alias_value: &str, args: &InvocationArgs) -> (r: Result<(Run, Step), Failure>)
    ensures
        match r {
            Ok((machine, step)) => started(alias_value@, args) == Ok::<
                (RunView, StepView),
                FailureView,
            >((machine@, step@)),
            Err(f) => started(alias_value@, args) == Err::<(RunView, StepView), FailureView>(f@),
        },
{
    match Run::new(alias_value, args) {
        Ok(machine) => {
            assert(machine@.stack =~= Seq::<Seq<char>>::empty());
            Ok(machine.step(Event::Start))
        },
        Err(f) => Err(f),
    }
}

fn script_error(why: &str, source: &[char]) -> (f: Failure)
    ensures
        f@ == script_failure(why@, source@),
{
    let mut detail = chars_of(why);
    detail.push('\n');
    detail.push('\n');
    detail.extend_from_slice(source);
    assert(detail@ =~= why@ + seq!['\n', '\n'] + source@);
    Failure::labelled(FailureKind::Script, "mruby failed", detail.as_slice())
}

/// The answers to `events`, one after the other, from `run` on.
pub open spec fn answers(run: RunView, events: Seq<EventView>) -> Seq<StepView>
    decreases events.len(),
{
    if events.len() == 0 {
        Seq::empty()
    } else {
        seq![stepped(run, events[0]).1] + answers(stepped(run, events[0]).0, events.drop_first())
    }
}

/// A run that is over asks for nothing more, whatever it is told.
pub proof fn lemma_over_asks_nothing(run: RunView, events: Seq<EventView>)
    requires
        run.phase == PhaseView::Over,
    ensures
        answers(run, events).len() == events.len(),
        forall|i: int| 0 <= i < events.len() ==> answers(run, events)[i] == StepView::Stopped,
    decreases events.len(),
{
    if events.len() > 0 {
        lemma_over_asks_nothing(run, events.drop_first());
    }
}

/// A command that ends with another status than 0 fails the run, with a
/// failure that names the status; whatever comes after, no further
/// directive is dispatched.
pub proof fn lemma_failed_command_ends_run(
    run: RunView,
    command: Seq<char>,
    code: i32,
    later: Seq<EventView>,
)
    requires
        run.phase == PhaseView::Acting(DirectiveView::ShellCommand(command)),
        code != 0,
    ensures
        ({
            let (after, answer) = stepped(run, EventView::Exited(ExitOutcome::NonZero(code)));
            &&& answer == StepView::Failed(
                failed(crate::cmd::status_text(ExitOutcome::NonZero(code))),
            )
            &&& after == over(run)
            &&& forall|i: int|
                0 <= i < later.len() ==> #[trigger] answers(after, later)[i] == StepView::Stopped
        }),
{
    lemma_over_asks_nothing(over(idle(run)), later);
}

/// `@popd` with no directory saved fails with the underflow failure. The
/// run asks for no change of directory, and is over.
pub proof fn lemma_popd_underflow(run: RunView)
    requires
        run.stack.len() == 0,
    ensures
        act(run, DirectiveView::PopDir) == (over(run), StepView::Failed(underflow())),
{
}

/// A change of directory that fails ends the run, and leaves the stack as
/// it was: nothing is saved for a directory that was never left.
pub proof fn lemma_failed_pushd_leaves_stack(run: RunView, path: Seq<char>, why: Seq<char>)
    requires
        run.phase == PhaseView::Acting(DirectiveView::PushDir(path)),
    ensures
        ({
            let (after, answer) = stepped(run, EventView::Failed(why));
            &&& answer == StepView::Failed(failed("@pushd "@ + path + ": "@ + why))
            &&& after == over(run)
            &&& after.stack == run.stack
        }),
{
}

/// Every step changes the depth of the directory stack by one at most.
pub proof fn lemma_stack_steps(run: RunView, event: EventView)
    ensures
        ({
            let after = stepped(run, event).0;
            ||| after.stack == run.stack
            ||| after.stack == run.stack.drop_last() && run.stack.len() > 0
            ||| after.stack.len() == run.stack.len() + 1 && after.stack.drop_last() == run.stack
        }),
{
    let after = stepped(run, event).0;
    match run.phase {
        PhaseView::Acting(DirectiveView::PushDir(_)) => {
            if let EventView::DirChanged(left) = event {
                let pushed = run.stack.push(left);
                assert(pushed.drop_last() =~= run.stack);
                lemma_begin_stack(RunView { next: run.next + 1, stack: pushed, ..idle(run) });
            } else {
                lemma_begin_stack(RunView { next: run.next + 1, ..idle(run) });
            }
        },
        PhaseView::Acting(_) => {
            lemma_begin_stack(RunView { next: run.next + 1, ..idle(run) });
        },
        PhaseView::Idle => {
            lemma_begin_stack(run);
        },
        PhaseView::Resolving(text, m) => {
            lemma_resolving_stack(idle(run), text, m, event);
        },
        PhaseView::Over => {},
    }
}

proof fn lemma_resolve_stack(run: RunView, text: Seq<char>)
    ensures
        ({
            let after = resolve(run, text).0;
            after.stack == run.stack || (after.stack == run.stack.drop_last() && run.stack.len()
                > 0)
        }),
{
}

proof fn lemma_begin_stack(run: RunView)
    ensures
        ({
            let after = begin(run).0;
            after.stack == run.stack || (after.stack == run.stack.drop_last() && run.stack.len()
                > 0)
        }),
{
    if 0 <= run.next < run.segments.len() {
        lemma_resolve_stack(run, text_of(run.segments[run.next]));
    }
}

proof fn lemma_resolving_stack(run: RunView, text: Seq<char>, m: MatchRange, event: EventView)
    ensures
        ({
            let after = stepped_resolving(run, text, m, event).0;
            after.stack == run.stack || (after.stack == run.stack.drop_last() && run.stack.len()
                > 0)
        }),
{
    match (kind_of(text, m), event) {
        (InlineKind::Command, EventView::Captured(out)) => {
            if let Ok(t) = captured(out) {
                lemma_resolve_stack(run, spliced(text, m, t));
            }
        },
        (InlineKind::Script, EventView::Evaluated(v)) => {
            if let Ok(t) = displayed(v) {
                lemma_resolve_stack(run, spliced(text, m, t));
            }
        },
        _ => {},
    }
}

/// The line, trimmed, is a directive of the engine, or would be one.
pub open spec fn is_at_line(line: Seq<char>) -> bool {
    trimmed(line).len() > 0 && trimmed(line)[0] == '@'
}

/// A body with no positional token, no fence and no `@` line is, line by
/// line, commands for the shell: its segments are its lines, trimmed, in the
/// order of the source, without those that are empty or start with `#`, and
/// each of them is classified as a shell command.
pub proof fn lemma_plain_body(body: Seq<char>, args: &InvocationArgs)
    requires
        next_token(body, 0) is None,
        forall|k: int| 0 <= k < lines(body).len() ==> !is_fence_open(#[trigger] lines(body)[k]),
        forall|k: int| 0 <= k < lines(body).len() ==> !is_at_line(#[trigger] lines(body)[k]),
    ensures
        prepared(body, args) == Ok::<Seq<SegmentView>, FailureView>(
            shell_lines_from(lines(body), 0),
        ),
        forall|k: int|
            0 <= k < shell_lines_from(lines(body), 0).len() ==> {
                let segment = #[trigger] shell_lines_from(lines(body), 0)[k];
                classified(segment, text_of(segment)) == Ok::<DirectiveView, FailureView>(
                    DirectiveView::ShellCommand(text_of(segment)),
                )
            },
{
    assert(body.subrange(0, body.len() as int) =~= body);
    lemma_no_fence(lines(body), 0);
    lemma_shell_lines(lines(body), 0);
}

/// Each of the shell lines is a line of the source, trimmed, that is kept.
proof fn lemma_shell_lines(rows: Seq<Seq<char>>, i: int)
    requires
        0 <= i <= rows.len(),
        forall|k: int| 0 <= k < rows.len() ==> !is_at_line(#[trigger] rows[k]),
    ensures
        forall|k: int|
            0 <= k < shell_lines_from(rows, i).len() ==> {
                let segment = #[trigger] shell_lines_from(rows, i)[k];
                classified(segment, text_of(segment)) == Ok::<DirectiveView, FailureView>(
                    DirectiveView::ShellCommand(text_of(segment)),
                )
            },
    decreases rows.len() - i,
{
    if i < rows.len() {
        lemma_shell_lines(rows, i + 1);
        let head = shell_line(rows[i]);
        let rest = shell_lines_from(rows, i + 1);
        assert forall|k: int| 0 <= k < (head + rest).len() implies {
            let segment = #[trigger] (head + rest)[k];
            classified(segment, text_of(segment)) == Ok::<DirectiveView, FailureView>(
                DirectiveView::ShellCommand(text_of(segment)),
            )
        } by {
            // the line at `i` is no `@` line; the others are shell lines by induction
            if k >= head.len() {
                assert((head + rest)[k] == rest[k - head.len()]);
            }
        }
    }
}

/// The outcome of a substitution, as the model has it.
pub open spec fn outcome_view(outcome: Result<Vec<char>, Failure>) -> Result<
    Seq<char>,
    FailureView,
> {
    match outcome {
        Ok(t) => Ok(t@),
        Err(f) => Err(f@),
    }
}

} // verus!

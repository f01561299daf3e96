//! Failures and their messages.
//!
//! A message is a sequence of pieces, some of them marked: the word that
//! announces the failure, and the spans of the text at fault. How a marked
//! piece looks is the caller's choice at rendering time, so the same failure
//! prints in colour on a terminal and plainly into a file.
use crate::text::{chars_of, string_from_chars, views};
use vstd::prelude::*;
use vstd::slice::slice_subrange;

verus! {

/// A half-open interval of character offsets into a text.
#[derive(Clone, Copy, Debug, PartialEq, Eq, Structural)]
pub struct MatchRange {
    pub start: usize,
    pub end: usize,
}

impl MatchRange {
    /// The interval is not reversed and ends within a text of `len` characters.
    pub open spec fn fits(self, len: int) -> bool {
        self.start <= self.end <= len
    }
}

/// What went wrong, by the stage that found it.
#[derive(Clone, Copy, Debug, PartialEq, Eq, Structural)]
pub enum FailureKind {
    /// A positional token that must not be used.
    Substitution,
    /// Delimiters that do not nest.
    Nesting,
    /// A malformed `@` line.
    DirectiveFormat,
    /// A command, a directory change or the directory stack.
    Execution,
    /// The script engine.
    Script,
    /// The surroundings: home directory, alias name.
    Setup,
}

/// One piece of a message.
#[derive(Debug, PartialEq, Eq)]
pub struct Piece {
    pub marked: bool,
    pub text: String,
}

/// A piece of a message, as the contracts see it.
pub struct PieceView {
    pub marked: bool,
    pub text: Seq<char>,
}

impl View for Piece {
    type V = PieceView;

    open spec fn view(&self) -> PieceView {
        PieceView { marked: self.marked, text: self.text@ }
    }
}

impl Clone for Piece {
    fn clone(&self) -> (r: Self)
        ensures
            r@ == self@,
    {
        Piece { marked: self.marked, text: self.text.clone() }
    }
}

/// A failure with its message. `decorated` says that the message already
/// shows the text at fault with the offending span marked.
#[derive(Debug, PartialEq, Eq)]
pub struct Failure {
    pub kind: FailureKind,
    pub message: Vec<Piece>,
    pub decorated: bool,
}

/// A failure, as the contracts see it.
pub struct FailureView {
    pub kind: FailureKind,
    pub message: Seq<PieceView>,
    pub decorated: bool,
}

impl View for Failure {
    type V = FailureView;

    open spec fn view(&self) -> FailureView {
        FailureView { kind: self.kind, message: views(self.message@), decorated: self.decorated }
    }
}

/// A piece that is not marked.
pub open spec fn plain(text: Seq<char>) -> PieceView {
    PieceView { marked: false, text }
}

/// A marked piece.
pub open spec fn marked(text: Seq<char>) -> PieceView {
    PieceView { marked: true, text }
}

/// A piece as it is printed: a marked one between `open` and `close`.
pub open spec fn rendered_piece(p: PieceView, open: Seq<char>, close: Seq<char>) -> Seq<char> {
    if p.marked {
        open + p.text + close
    } else {
        p.text
    }
}

/// A message as it is printed.
pub open spec fn rendered(message: Seq<PieceView>, open: Seq<char>, close: Seq<char>) -> Seq<
    char,
>
    decreases message.len(),
{
    if message.len() == 0 {
        Seq::empty()
    } else {
        rendered(message.drop_last(), open, close) + rendered_piece(message.last(), open, close)
    }
}

/// `text` cut at `spans`, each span marked, from offset `from` on: the plain
/// piece before each span, the span, and the plain rest after the last one.
pub open spec fn span_pieces(text: Seq<char>, spans: Seq<MatchRange>, from: int) -> Seq<PieceView>
    decreases spans.len(),
{
    if spans.len() == 0 {
        seq![plain(text.subrange(from, text.len() as int))]
    } else {
        seq![
            plain(text.subrange(from, spans[0].start as int)),
            marked(text.subrange(spans[0].start as int, spans[0].end as int)),
        ] + span_pieces(text, spans.drop_first(), spans[0].end as int)
    }
}

/// The spans follow one another, none reversed, within `len` characters.
pub open spec fn spans_ordered(spans: Seq<MatchRange>, len: int) -> bool {
    &&& forall|k: int|
        0 <= k < spans.len() ==> (#[trigger] spans[k]).start <= spans[k].end <= len
    &&& forall|k: int, l: int|
        0 <= k < l < spans.len() ==> (#[trigger] spans[k]).end <= (#[trigger] spans[l]).start
}

/// The message of a failure announced by `label`: the label marked, a colon
/// and the detail.
pub open spec fn labelled(label: Seq<char>, detail: Seq<char>) -> Seq<PieceView> {
    seq![marked(label), plain(seq![':', ' '] + detail)]
}

/// What decoration adds to a message: a line feed, then `text` with the span
/// marked.
pub open spec fn decoration(text: Seq<char>, span: MatchRange) -> Seq<PieceView> {
    seq![
        plain(seq!['\n'] + text.subrange(0, span.start as int)),
        marked(text.subrange(span.start as int, span.end as int)),
        plain(text.subrange(span.end as int, text.len() as int)),
    ]
}

/// A failure decorated with the text it arose in. One that is decorated
/// already stays as it is.
pub open spec fn decorated_with(f: FailureView, text: Seq<char>, span: MatchRange) -> FailureView {
    if f.decorated {
        f
    } else {
        FailureView { kind: f.kind, message: f.message + decoration(text, span), decorated: true }
    }
}

/// A failure is decorated at most once: a second decoration changes
/// nothing.
pub proof fn lemma_decorated_once(
    f: FailureView,
    text: Seq<char>,
    span: MatchRange,
    other_text: Seq<char>,
    other_span: MatchRange,
)
    ensures
        decorated_with(decorated_with(f, text, span), other_text, other_span) == decorated_with(
            f,
            text,
            span,
        ),
{
}

pub(crate) fn piece(marked: bool, text: &[char]) -> (p: Piece)
    ensures
        p@ == (PieceView { marked, text: text@ }),
{
    Piece { marked, text: string_from_chars(text) }
}

/// Appends to `message` the pieces of `text` cut at `spans`.
pub(crate) fn push_span_pieces(message: &mut Vec<Piece>, text: &[char], spans: &Vec<MatchRange>)
    requires
        spans_ordered(spans@, text@.len() as int),
    ensures
        views(final(message)@) == views(old(message)@) + span_pieces(text@, spans@, 0),
{
    let mut from: usize = 0;
    let mut i: usize = 0;
    assert(spans@.skip(0) =~= spans@);
    while i < spans.len()
        invariant
            i <= spans.len(),
            from <= text.len(),
            spans_ordered(spans@, text@.len() as int),
            forall|k: int| i <= k < spans.len() ==> from <= (#[trigger] spans[k]).start,
            views(message@) + span_pieces(text@, spans@.skip(i as int), from as int) == views(
                old(message)@,
            ) + span_pieces(text@, spans@, 0),
        decreases spans.len() - i,
    {
        let span = spans[i];
        assert(spans@.skip(i as int).drop_first() =~= spans@.skip(i + 1));
        message.push(piece(false, slice_subrange(text, from, span.start)));
        message.push(piece(true, slice_subrange(text, span.start, span.end)));
        from = span.end;
        i += 1;
    }
    message.push(piece(false, slice_subrange(text, from, text.len())));
}

impl Failure {
    /// A failure whose message is `text` as it stands.
    pub fn plain(kind: FailureKind, text: &str) -> (f: Failure)
        ensures
            f@ == (FailureView { kind, message: seq![plain(text@)], decorated: false }),
    {
        let mut message: Vec<Piece> = Vec::new();
        message.push(Piece { marked: false, text: String::from_str(text) });
        let f = Failure { kind, message, decorated: false };
        assert(f@.message =~= seq![plain(text@)]);
        f
    }

    /// A failure announced by `label`.
    pub fn labelled(kind: FailureKind, label: &str, detail: &[char]) -> (f: Failure)
        ensures
            f@ == (FailureView { kind, message: labelled(label@, detail@), decorated: false }),
    {
        let mut message: Vec<Piece> = Vec::new();
        message.push(Piece { marked: true, text: String::from_str(label) });
        let mut rest: Vec<char> = Vec::new();
        rest.push(':');
        rest.push(' ');
        rest.extend_from_slice(detail);
        assert(rest@ =~= seq![':', ' '] + detail@);
        message.push(piece(false, rest.as_slice()));
        let f = Failure { kind, message, decorated: false };
        assert(f@.message =~= labelled(label@, detail@));
        f
    }

    /// A failure announced by `label` that shows, after an empty line, `text`
    /// with `spans` marked.
    pub fn with_spans(
        kind: FailureKind,
        label: &str,
        detail: &[char],
        text: &[char],
        spans: &Vec<MatchRange>,
    ) -> (f: Failure)
        requires
            spans_ordered(spans@, text@.len() as int),
        ensures
            f@ == (FailureView {
                kind,
                message: labelled(label@, detail@ + seq!['\n', '\n']) + span_pieces(
                    text@,
                    spans@,
                    0,
                ),
                decorated: true,
            }),
    {
        let mut message: Vec<Piece> = Vec::new();
        message.push(Piece { marked: true, text: String::from_str(label) });
        let mut rest: Vec<char> = Vec::new();
        rest.push(':');
        rest.push(' ');
        rest.extend_from_slice(detail);
        rest.push('\n');
        rest.push('\n');
        assert(rest@ =~= seq![':', ' '] + (detail@ + seq!['\n', '\n']));
        message.push(piece(false, rest.as_slice()));
        assert(views(message@) =~= labelled(label@, detail@ + seq!['\n', '\n']));
        push_span_pieces(&mut message, text, spans);
        Failure { kind, message, decorated: true }
    }

    /// Attaches the text in which the failure arose, with the span at fault
    /// marked. A failure is decorated once: a second decoration changes nothing.
    pub fn decorate(self, text: &[char], span: MatchRange) -> (f: Failure)
        requires
            span.fits(text@.len() as int),
        ensures
            f@ == decorated_with(self@, text@, span),
    {
        if self.decorated {
            return self;
        }
        let mut message = self.message;
        let ghost before = views(message@);
        let mut head: Vec<char> = Vec::new();
        head.push('\n');
        head.extend_from_slice(slice_subrange(text, 0, span.start));
        assert(head@ =~= seq!['\n'] + text@.subrange(0, span.start as int));
        message.push(piece(false, head.as_slice()));
        message.push(piece(true, slice_subrange(text, span.start, span.end)));
        message.push(piece(false, slice_subrange(text, span.end, text.len())));
        assert(views(message@) =~= before + decoration(text@, span));
        Failure { kind: self.kind, message, decorated: true }
    }

    /// The message as text, each marked piece between `open` and `close`.
    pub fn render(&self, open: &str, close: &str) -> (s: String)
        ensures
            s@ == rendered(self@.message, open@, close@),
    {
        let open_chars = chars_of(open);
        let close_chars = chars_of(close);
        let mut out: Vec<char> = Vec::new();
        let mut i: usize = 0;
        while i < self.message.len()
            invariant
                i <= self.message.len(),
                open_chars@ == open@,
                close_chars@ == close@,
                out@ == rendered(views(self.message@).take(i as int), open@, close@),
            decreases self.message.len() - i,
        {
            let ghost all = views(self.message@);
            let p = &self.message[i];
            if p.marked {
                out.extend_from_slice(open_chars.as_slice());
            }
            let body = chars_of(p.text.as_str());
            out.extend_from_slice(body.as_slice());
            if p.marked {
                out.extend_from_slice(close_chars.as_slice());
            }
            assert(all.take(i + 1).drop_last() =~= all.take(i as int));
            i += 1;
        }
        assert(views(self.message@).take(i as int) =~= views(self.message@));
        string_from_chars(out.as_slice())
    }

    /// The message as plain text.
    pub fn text(&self) -> (s: String)
        ensures
            s@ == rendered(self@.message, Seq::empty(), Seq::empty()),
    {
        let mut out: Vec<char> = Vec::new();
        let mut i: usize = 0;
        while i < self.message.len()
            invariant
                i <= self.message.len(),
                out@ == rendered(
                    views(self.message@).take(i as int),
                    Seq::empty(),
                    Seq::empty(),
                ),
            decreases self.message.len() - i,
        {
            let ghost all = views(self.message@);
            let p = &self.message[i];
            let body = chars_of(p.text.as_str());
            out.extend_from_slice(body.as_slice());
            assert(all.take(i + 1).drop_last() =~= all.take(i as int));
            i += 1;
        }
        assert(views(self.message@).take(i as int) =~= views(self.message@));
        string_from_chars(out.as_slice())
    }
}

} // verus!

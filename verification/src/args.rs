//! Positional parameters: the tokens of a body that stand for the arguments
//! of the invocation, and what each of them is replaced by.
//!
//! | token      | replacement                                                  |
//! |------------|--------------------------------------------------------------|
//! | `$0`       | the name the alias was invoked by                            |
//! | `$1`..`$9` | the argument of that number, or nothing where it is missing  |
//! | `$#`       | the number of arguments                                      |
//! | `"$@"`     | the arguments, those with white space each in quotes         |
//! | `"$+"`     | the arguments as one quoted word                             |
//! | `$*`, `$@`, `"$*"` | refused, with the form to write instead              |
use crate::failure::{
    decorated_with, labelled, Failure, FailureKind, FailureView, MatchRange,
};
use crate::nesting::span;
use crate::repl::{replace_all_chars, replaced_all, Pattern, Resolver};
use crate::text::{
    chars_of, contains_whitespace, decimal, has_space, joined, push_decimal, slice_to_chars,
    string_from_chars, views,
};
use vstd::prelude::*;

verus! {

/// The name an alias was invoked by, and the arguments it was given.
pub struct InvocationArgs {
    items: Vec<String>,
}

impl View for InvocationArgs {
    type V = Seq<Seq<char>>;

    /// The name at index 0, then the arguments.
    closed spec fn view(&self) -> Seq<Seq<char>> {
        views(self.items@)
    }
}

impl InvocationArgs {
    #[verifier::type_invariant]
    spec fn named(self) -> bool {
        self.items@.len() >= 1
    }

    /// The name and the arguments of an invocation; `None` where `items`
    /// holds not even a name.
    pub fn new(items: Vec<String>) -> (r: Option<InvocationArgs>)
        ensures
            match r {
                Some(args) => items@.len() >= 1 && args@ == views(items@),
                None => items@.len() == 0,
            },
    {
        if items.len() == 0 {
            None
        } else {
            Some(InvocationArgs { items })
        }
    }

    /// The name the alias was invoked by.
    pub fn name(&self) -> (r: &str)
        ensures
            self@.len() >= 1,
            r@ == self@[0],
    {
        proof {
            use_type_invariant(self);
        }
        self.items[0].as_str()
    }

    /// The number of arguments, the name not counted.
    pub fn count(&self) -> (n: usize)
        ensures
            n == self@.len() - 1,
    {
        proof {
            use_type_invariant(self);
        }
        self.items.len() - 1
    }

    /// The name at index 0, the arguments from index 1 on.
    pub fn get(&self, i: usize) -> (r: Option<&str>)
        ensures
            match r {
                Some(s) => i < self@.len() && s@ == self@[i as int],
                None => i >= self@.len(),
            },
    {
        if i < self.items.len() {
            Some(self.items[i].as_str())
        } else {
            None
        }
    }
}

/// `*`, `+` or `@`: what may stand in a quoted token.
pub open spec fn is_list_mark(c: char) -> bool {
    c == '*' || c == '+' || c == '@'
}

/// A digit or one of `*`, `+`, `@`, `#`: what may follow the `$` of a token.
pub open spec fn is_token_mark(c: char) -> bool {
    0x30 <= c as u32 <= 0x39 || c == '*' || c == '+' || c == '@' || c == '#'
}

/// The length of the token that starts at offset `i`, or 0 where none does:
/// 4 for `"$*"`, `"$+"` and `"$@"`, 2 for a `$` and its mark.
pub open spec fn token_len(s: Seq<char>, i: int) -> int {
    if 0 <= i && i + 4 <= s.len() && s[i] == '"' && s[i + 1] == '$' && is_list_mark(s[i + 2])
        && s[i + 3] == '"' {
        4
    } else if 0 <= i && i + 2 <= s.len() && s[i] == '$' && is_token_mark(s[i + 1]) {
        2
    } else {
        0
    }
}

/// The leftmost token at or after offset `i`.
pub open spec fn next_token(s: Seq<char>, i: int) -> Option<MatchRange>
    decreases s.len() - i,
{
    if i < 0 || i >= s.len() {
        None
    } else if token_len(s, i) > 0 {
        Some(span(i, i + token_len(s, i)))
    } else {
        next_token(s, i + 1)
    }
}

/// Where a token starts at `at`, the search from `from <= at` finds a token
/// that starts at or before `at`.
pub proof fn lemma_next_token(s: Seq<char>, from: int, at: int)
    requires
        0 <= from <= at,
        s.len() <= usize::MAX,
        token_len(s, at) > 0,
    ensures
        next_token(s, from) matches Some(m) && from <= m.start <= at && m.end == m.start
            + token_len(s, m.start as int) && token_len(s, m.start as int) > 0,
    decreases at - from,
{
    if token_len(s, from) == 0 {
        lemma_next_token(s, from + 1, at);
    }
}

/// The positional tokens.
pub struct ArgToken;

impl Pattern for ArgToken {
    open spec fn first_match(&self, text: Seq<char>, start: int) -> Option<MatchRange> {
        next_token(text, start)
    }

    proof fn lemma_first_match(&self, text: Seq<char>, start: int)
        decreases text.len() - start,
    {
        if start < text.len() && token_len(text, start) == 0 {
            self.lemma_first_match(text, start + 1);
        }
    }

    fn find_at(&self, text: &[char], start: usize) -> (r: Option<MatchRange>) {
        let mut i: usize = start;
        while i < text.len()
            invariant
                start <= i <= text.len(),
                next_token(text@, i as int) == next_token(text@, start as int),
            decreases text.len() - i,
        {
            let n = token_at(text, i);
            if n > 0 {
                return Some(MatchRange { start: i, end: i + n });
            }
            i += 1;
        }
        None
    }
}

fn list_mark(c: char) -> (b: bool)
    ensures
        b == is_list_mark(c),
{
    c == '*' || c == '+' || c == '@'
}

fn token_mark(c: char) -> (b: bool)
    ensures
        b == is_token_mark(c),
{
    let n: u32 = c as u32;
    (0x30 <= n && n <= 0x39) || c == '*' || c == '+' || c == '@' || c == '#'
}

fn token_at(s: &[char], i: usize) -> (n: usize)
    requires
        i < s.len(),
    ensures
        n == token_len(s@, i as int),
        i + n <= s.len(),
{
    let left = s.len() - i;
    if left >= 4 && s[i] == '"' && s[i + 1] == '$' && list_mark(s[i + 2]) && s[i + 3] == '"' {
        4
    } else if left >= 2 && s[i] == '$' && token_mark(s[i + 1]) {
        2
    } else {
        0
    }
}

/// `s` in quotes.
pub open spec fn in_quotes(s: Seq<char>) -> Seq<char> {
    seq!['"'] + s + seq!['"']
}

/// `s` as one word: in quotes where it holds white space.
pub open spec fn as_word(s: Seq<char>) -> Seq<char> {
    if has_space(s) {
        in_quotes(s)
    } else {
        s
    }
}

/// The failure of a token that must not be used.
pub open spec fn refused(detail: Seq<char>) -> FailureView {
    FailureView {
        kind: FailureKind::Substitution,
        message: labelled("failed"@, detail),
        decorated: false,
    }
}

/// What `$` with the mark `c` stands for; `token` itself where the mark
/// means nothing.
pub open spec fn positional(c: char, args: Seq<Seq<char>>, token: Seq<char>) -> Result<
    Seq<char>,
    FailureView,
> {
    let k = c as u32 - 0x30;
    if c == '0' {
        Ok(args[0])
    } else if 1 <= k <= 9 {
        Ok(
            if k < args.len() {
                args[k]
            } else {
                Seq::empty()
            },
        )
    } else if c == '#' {
        Ok(decimal((args.len() - 1) as nat))
    } else if c == '*' {
        Err(refused("$* is not supported, maybe \"$+\" ?"@))
    } else if c == '@' {
        Err(refused("$@ is not supported, maybe \"$@\" ?"@))
    } else {
        Ok(token)
    }
}

/// What the quoted token with the mark `c` stands for.
pub open spec fn listed(c: char, args: Seq<Seq<char>>, token: Seq<char>) -> Result<
    Seq<char>,
    FailureView,
> {
    if c == '*' {
        Err(refused("\"$*\" is not supported, maybe \"$+\" ?"@))
    } else if c == '+' {
        Ok(in_quotes(joined(args.skip(1), seq![' '])))
    } else if c == '@' {
        Ok(joined(args.skip(1).map_values(|s: Seq<char>| as_word(s)), seq![' ']))
    } else {
        Ok(token)
    }
}

/// What `token` is replaced by. A text that is no token stays as it is.
pub open spec fn replacement(token: Seq<char>, args: Seq<Seq<char>>) -> Result<
    Seq<char>,
    FailureView,
> {
    if token.len() == 2 && token[0] == '$' {
        positional(token[1], args, token)
    } else if token.len() == 4 && token[0] == '"' && token[1] == '$' && token[3] == '"' {
        listed(token[2], args, token)
    } else {
        Ok(token)
    }
}

/// `$#` stands for the number of arguments, and `$k`, for `k` from 1 to 9,
/// for the argument of that number, or for nothing where there are fewer.
pub proof fn lemma_positional_tokens(args: Seq<Seq<char>>, k: int)
    requires
        args.len() >= 1,
        1 <= k <= 9,
    ensures
        replacement(seq!['$', '#'], args) == Ok::<Seq<char>, FailureView>(
            decimal((args.len() - 1) as nat),
        ),
        replacement(seq!['$', crate::text::digit(k)], args) == Ok::<Seq<char>, FailureView>(
            if k < args.len() {
                args[k]
            } else {
                Seq::empty()
            },
        ),
{
}

/// `items` with `sep` between each two neighbours.
pub fn join_chars(items: &Vec<Vec<char>>, sep: &[char]) -> (r: Vec<char>)
    ensures
        r@ == joined(views(items@), sep@),
{
    let mut out: Vec<char> = Vec::new();
    let mut i: usize = 0;
    while i < items.len()
        invariant
            i <= items.len(),
            out@ == joined(views(items@).take(i as int), sep@),
        decreases items.len() - i,
    {
        if i > 0 {
            out.extend_from_slice(sep);
        }
        out.extend_from_slice(items[i].as_slice());
        assert(views(items@).take(i + 1).drop_last() =~= views(items@).take(i as int));
        i += 1;
    }
    assert(views(items@).take(i as int) =~= views(items@));
    out
}

/// `items` with `sep` between each two neighbours.
pub fn str_join(items: &Vec<String>, sep: &str) -> (r: String)
    ensures
        r@ == joined(views(items@), sep@),
{
    let mut parts: Vec<Vec<char>> = Vec::new();
    let mut i: usize = 0;
    while i < items.len()
        invariant
            i <= items.len(),
            views(parts@) == views(items@).take(i as int),
        decreases items.len() - i,
    {
        let ghost before = views(parts@);
        parts.push(chars_of(items[i].as_str()));
        assert(before.push(items[i as int]@) =~= views(items@).take(i + 1));
        i += 1;
    }
    assert(views(items@).take(i as int) =~= views(items@));
    let sep_chars = chars_of(sep);
    let out = join_chars(&parts, sep_chars.as_slice());
    string_from_chars(out.as_slice())
}

fn refuse(detail: &str) -> (f: Failure)
    ensures
        f@ == refused(detail@),
{
    let d = chars_of(detail);
    Failure::labelled(FailureKind::Substitution, "failed", d.as_slice())
}

impl InvocationArgs {
    /// The arguments, the name left out; each as a word of its own where
    /// `words` is set.
    fn arguments(&self, words: bool) -> (r: Vec<Vec<char>>)
        ensures
            views(r@) == if words {
                self@.skip(1).map_values(|s: Seq<char>| as_word(s))
            } else {
                self@.skip(1)
            },
    {
        proof {
            use_type_invariant(self);
        }
        let mut r: Vec<Vec<char>> = Vec::new();
        let mut i: usize = 1;
        while i < self.items.len()
            invariant
                1 <= i <= self.items.len(),
                views(r@) == if words {
                    self@.skip(1).map_values(|s: Seq<char>| as_word(s)).take(i - 1)
                } else {
                    self@.skip(1).take(i - 1)
                },
            decreases self.items.len() - i,
        {
            let item = chars_of(self.items[i].as_str());
            let ghost before = views(r@);
            let ghost added = if words {
                as_word(item@)
            } else {
                item@
            };
            if words && contains_whitespace(item.as_slice()) {
                let mut quoted: Vec<char> = Vec::new();
                quoted.push('"');
                quoted.extend_from_slice(item.as_slice());
                quoted.push('"');
                assert(quoted@ =~= in_quotes(item@));
                r.push(quoted);
            } else {
                r.push(item);
            }
            assert(before.push(added) =~= if words {
                self@.skip(1).map_values(|s: Seq<char>| as_word(s)).take(i as int)
            } else {
                self@.skip(1).take(i as int)
            });
            i += 1;
        }
        r
    }

    fn positional(&self, c: char, token: &[char]) -> (r: Result<Vec<char>, Failure>)
        ensures
            match r {
                Ok(t) => positional(c, self@, token@) == Ok::<Seq<char>, FailureView>(t@),
                Err(f) => positional(c, self@, token@) == Err::<Seq<char>, FailureView>(f@),
            },
    {
        proof {
            use_type_invariant(self);
        }
        let n: u32 = c as u32;
        if c == '0' {
            Ok(chars_of(self.items[0].as_str()))
        } else if 0x31 <= n && n <= 0x39 {
            let k: usize = (n - 0x30) as usize;
            if k < self.items.len() {
                Ok(chars_of(self.items[k].as_str()))
            } else {
                Ok(Vec::new())
            }
        } else if c == '#' {
            let mut out: Vec<char> = Vec::new();
            push_decimal(&mut out, (self.items.len() - 1) as u64);
            Ok(out)
        } else if c == '*' {
            Err(refuse("$* is not supported, maybe \"$+\" ?"))
        } else if c == '@' {
            Err(refuse("$@ is not supported, maybe \"$@\" ?"))
        } else {
            Ok(slice_to_chars(token))
        }
    }

    fn listed(&self, c: char, token: &[char]) -> (r: Result<Vec<char>, Failure>)
        ensures
            match r {
                Ok(t) => listed(c, self@, token@) == Ok::<Seq<char>, FailureView>(t@),
                Err(f) => listed(c, self@, token@) == Err::<Seq<char>, FailureView>(f@),
            },
    {
        let mut sep: Vec<char> = Vec::new();
        sep.push(' ');
        if c == '*' {
            Err(refuse("\"$*\" is not supported, maybe \"$+\" ?"))
        } else if c == '+' {
            let items = self.arguments(false);
            let all = join_chars(&items, sep.as_slice());
            let mut out: Vec<char> = Vec::new();
            out.push('"');
            out.extend_from_slice(all.as_slice());
            out.push('"');
            assert(out@ =~= in_quotes(all@));
            Ok(out)
        } else if c == '@' {
            let items = self.arguments(true);
            Ok(join_chars(&items, sep.as_slice()))
        } else {
            Ok(slice_to_chars(token))
        }
    }
}

impl Resolver for InvocationArgs {
    open spec fn resolved(&self, token: Seq<char>) -> Result<Seq<char>, FailureView> {
        replacement(token, self@)
    }

    fn resolve(&self, token: &[char]) -> (r: Result<Vec<char>, Failure>) {
        if token.len() == 2 && token[0] == '$' {
            self.positional(token[1], token)
        } else if token.len() == 4 && token[0] == '"' && token[1] == '$' && token[3] == '"' {
            self.listed(token[2], token)
        } else {
            Ok(slice_to_chars(token))
        }
    }
}

/// What `token` is replaced by, for the invocation `args`.
pub fn parse_arg(token: &str, args: &InvocationArgs) -> (r: Result<String, Failure>)
    ensures
        match r {
            Ok(t) => replacement(token@, args@) == Ok::<Seq<char>, FailureView>(t@),
            Err(f) => replacement(token@, args@) == Err::<Seq<char>, FailureView>(f@),
        },
{
    let chars = chars_of(token);
    match args.resolve(chars.as_slice()) {
        Ok(t) => Ok(string_from_chars(t.as_slice())),
        Err(f) => Err(f),
    }
}

/// `body` with every positional token replaced, in one pass.
pub open spec fn substituted(body: Seq<char>, args: &InvocationArgs) -> Result<
    Seq<char>,
    FailureView,
> {
    replaced_all(&ArgToken, args, body, 0)
}

/// Replaces every positional token of `body`, in one pass: what an argument
/// holds is never read as a token.
pub fn substitute_args(body: &[char], args: &InvocationArgs) -> (r: Result<Vec<char>, Failure>)
    ensures
        match r {
            Ok(t) => substituted(body@, args) == Ok::<Seq<char>, FailureView>(t@),
            Err(f) => substituted(body@, args) == Err::<Seq<char>, FailureView>(f@),
        },
{
    replace_all_chars(&ArgToken, body, args)
}

/// The token at `i` stands between two quotes.
pub open spec fn stands_quoted(s: Seq<char>, i: int) -> bool {
    1 <= i && i + 2 < s.len() && s[i - 1] == '"' && s[i + 2] == '"'
}

/// `detail` refuses a token and names the quoted form to write instead.
pub open spec fn suggests_quoted_form(detail: Seq<char>) -> bool {
    ||| detail == "$* is not supported, maybe \"$+\" ?"@
    ||| detail == "$@ is not supported, maybe \"$@\" ?"@
    ||| detail == "\"$*\" is not supported, maybe \"$+\" ?"@
}

/// `f` is the refusal of a token of `body`: its message names the quoted
/// form to write instead, and shows the body with the token marked.
pub open spec fn is_refusal(f: FailureView, body: Seq<char>) -> bool {
    exists|detail: Seq<char>, m: MatchRange|
        suggests_quoted_form(detail) && m.start < m.end <= body.len() && f == #[trigger] decorated_with(
            refused(detail),
            body,
            m,
        )
}

/// A substitution fails in one way only: as the refusal of a token.
pub proof fn lemma_substitution_fails_by_refusal(body: Seq<char>, args: &InvocationArgs, from: int)
    requires
        0 <= from <= body.len() <= usize::MAX,
    ensures
        replaced_all(&ArgToken, args, body, from) matches Err(f) ==> is_refusal(f, body),
    decreases body.len() - from,
{
    ArgToken.lemma_first_match(body, from);
    if let Some(m) = next_token(body, from) {
        let token = body.subrange(m.start as int, m.end as int);
        match replacement(token, args@) {
            Ok(_) => {
                lemma_substitution_fails_by_refusal(body, args, m.end as int);
            },
            Err(f) => {
                let detail = if token.len() == 4 {
                    "\"$*\" is not supported, maybe \"$+\" ?"@
                } else if token[1] == '*' {
                    "$* is not supported, maybe \"$+\" ?"@
                } else {
                    "$@ is not supported, maybe \"$@\" ?"@
                };
                assert(f == refused(detail));
                assert(suggests_quoted_form(detail));
                assert(is_refusal(decorated_with(refused(detail), body, m), body));
            },
        }
    }
}

/// Wherever a body holds `$*`, or `$@` that does not stand between quotes,
/// the substitution fails, and the failure names the quoted form to write
/// instead.
pub proof fn lemma_unquoted_list_token_fails(body: Seq<char>, args: &InvocationArgs, i: int)
    requires
        body.len() <= usize::MAX,
        0 <= i && i + 1 < body.len(),
        body[i] == '$',
        body[i + 1] == '*' || (body[i + 1] == '@' && !stands_quoted(body, i)),
    ensures
        substituted(body, args) matches Err(f) && is_refusal(f, body),
{
    lemma_fails_from(body, args, i, 0);
    lemma_substitution_fails_by_refusal(body, args, 0);
}

proof fn lemma_fails_from(body: Seq<char>, args: &InvocationArgs, i: int, from: int)
    requires
        body.len() <= usize::MAX,
        0 <= from <= i && i + 1 < body.len(),
        body[i] == '$',
        body[i + 1] == '*' || (body[i + 1] == '@' && !stands_quoted(body, i)),
    ensures
        replaced_all(&ArgToken, args, body, from) is Err,
    decreases i - from,
{
    assert(token_len(body, i) == 2);
    lemma_next_token(body, from, i);
    let m = next_token(body, from)->0;
    let p = m.start as int;
    let token = body.subrange(p, m.end as int);
    if p == i {
        assert(token[0] == '$' && token[1] == body[i + 1]);
        assert(replacement(token, args@) is Err);
    } else if m.end <= i {
        lemma_fails_from(body, args, i, m.end as int);
    } else {
        assert(token_len(body, p) == 4 && p + 1 == i);
        assert(token[0] == '"' && token[1] == '$' && token[2] == body[i + 1] && token[3] == '"');
        assert(replacement(token, args@) is Err);
    }
}

/// A body without positional tokens stays as it is.
pub proof fn lemma_no_token(body: Seq<char>, args: &InvocationArgs)
    requires
        next_token(body, 0) is None,
    ensures
        substituted(body, args) == Ok::<Seq<char>, FailureView>(body),
{
    assert(body.subrange(0, body.len() as int) =~= body);
}

} // verus!

//! Values of the script engine, and how one reads when it takes the place of
//! an inline expression.
use crate::args::in_quotes;
use crate::failure::{labelled, Failure, FailureKind, FailureView};
use crate::text::{chars_of, push_signed_decimal, signed_decimal, string_from_chars};
use vstd::prelude::*;

verus! {

/// A value that the script engine hands back.
#[derive(Debug, PartialEq, Eq)]
pub enum ScriptValue {
    /// A string.
    Str(String),
    /// An integer.
    Int(i32),
    /// A floating point number, by its numeral.
    Float(String),
    /// A truth value.
    Bool(bool),
    /// An array.
    Array(Vec<ScriptValue>),
    /// An array that reads as the arguments of a command.
    ArrayCmd(Vec<ScriptValue>),
    /// An array that reads as the arguments of a command, and so do the
    /// arrays in it.
    ArrayCmdDeep(Vec<ScriptValue>),
    /// Anything else.
    Other,
}

/// The failure of a value that has no text.
pub open spec fn unknown_value() -> FailureView {
    FailureView {
        kind: FailureKind::Script,
        message: labelled("mruby failed"@, "unknown value type"@),
        decorated: false,
    }
}

/// `head`, then `sep` and `item`; `item` alone where it is the first.
pub open spec fn appended(
    head: Result<Seq<char>, FailureView>,
    first: bool,
    sep: Seq<char>,
    item: Result<Seq<char>, FailureView>,
) -> Result<Seq<char>, FailureView> {
    match head {
        Err(f) => Err(f),
        Ok(h) => match item {
            Err(f) => Err(f),
            Ok(t) => Ok(
                if first {
                    t
                } else {
                    h + sep + t
                },
            ),
        },
    }
}

/// How `v` reads: a string in quotes, a number by its numeral, an array in
/// brackets with commas, a command array as its items with spaces between.
pub open spec fn displayed(v: ScriptValue) -> Result<Seq<char>, FailureView>
    decreases v, 0int,
{
    match v {
        ScriptValue::Str(s) => Ok(in_quotes(s@)),
        ScriptValue::Int(i) => Ok(signed_decimal(i as int)),
        ScriptValue::Float(t) => Ok(t@),
        ScriptValue::Bool(b) => Ok(
            if b {
                "true"@
            } else {
                "false"@
            },
        ),
        ScriptValue::Array(items) => match displayed_items(items@, seq![',', ' '], false) {
            Ok(t) => Ok(seq!['['] + t + seq![']']),
            Err(f) => Err(f),
        },
        ScriptValue::ArrayCmd(items) => displayed_items(items@, seq![' '], false),
        ScriptValue::ArrayCmdDeep(items) => displayed_items(items@, seq![' '], true),
        ScriptValue::Other => Err(unknown_value()),
    }
}

/// How one item of a list reads; with `deep`, an array reads as a command
/// array, and so on downwards.
pub open spec fn displayed_item(v: ScriptValue, deep: bool) -> Result<Seq<char>, FailureView>
    decreases v, 1int,
{
    match v {
        ScriptValue::Array(inner) if deep => displayed_items(inner@, seq![' '], true),
        _ => displayed(v),
    }
}

/// How the items of a list read, with `sep` between them. The first item
/// that has no text fails the list.
pub open spec fn displayed_items(items: Seq<ScriptValue>, sep: Seq<char>, deep: bool) -> Result<
    Seq<char>,
    FailureView,
>
    decreases items, 0int,
{
    if items.len() == 0 {
        Ok(Seq::empty())
    } else {
        appended(
            displayed_items(items.drop_last(), sep, deep),
            items.len() == 1,
            sep,
            displayed_item(items.last(), deep),
        )
    }
}

fn unknown() -> (f: Failure)
    ensures
        f@ == unknown_value(),
{
    let detail = chars_of("unknown value type");
    Failure::labelled(FailureKind::Script, "mruby failed", detail.as_slice())
}

/// How `v` reads.
pub fn display_chars(v: &ScriptValue) -> (r: Result<Vec<char>, Failure>)
    ensures
        match r {
            Ok(t) => displayed(*v) == Ok::<Seq<char>, FailureView>(t@),
            Err(f) => displayed(*v) == Err::<Seq<char>, FailureView>(f@),
        },
    decreases v, 0int,
{
    match v {
        ScriptValue::Str(s) => {
            let mut out: Vec<char> = Vec::new();
            out.push('"');
            let body = chars_of(s.as_str());
            out.extend_from_slice(body.as_slice());
            out.push('"');
            assert(out@ =~= in_quotes(s@));
            Ok(out)
        },
        ScriptValue::Int(i) => {
            let mut out: Vec<char> = Vec::new();
            push_signed_decimal(&mut out, *i as i64);
            Ok(out)
        },
        ScriptValue::Float(t) => Ok(chars_of(t.as_str())),
        ScriptValue::Bool(b) => Ok(
            if *b {
                chars_of("true")
            } else {
                chars_of("false")
            },
        ),
        ScriptValue::Array(items) => {
            let mut sep: Vec<char> = Vec::new();
            sep.push(',');
            sep.push(' ');
            assert(sep@ =~= seq![',', ' ']);
            assert(items@.take(items@.len() as int) =~= items@);
            match display_items(items, items.len(), sep.as_slice(), false) {
                Ok(t) => {
                    let mut out: Vec<char> = Vec::new();
                    out.push('[');
                    out.extend_from_slice(t.as_slice());
                    out.push(']');
                    assert(out@ =~= seq!['['] + t@ + seq![']']);
                    Ok(out)
                },
                Err(f) => Err(f),
            }
        },
        ScriptValue::ArrayCmd(items) => {
            let mut sep: Vec<char> = Vec::new();
            sep.push(' ');
            assert(items@.take(items@.len() as int) =~= items@);
            display_items(items, items.len(), sep.as_slice(), false)
        },
        ScriptValue::ArrayCmdDeep(items) => {
            let mut sep: Vec<char> = Vec::new();
            sep.push(' ');
            assert(items@.take(items@.len() as int) =~= items@);
            display_items(items, items.len(), sep.as_slice(), true)
        },
        ScriptValue::Other => Err(unknown()),
    }
}

fn display_item(v: &ScriptValue, deep: bool) -> (r: Result<Vec<char>, Failure>)
    ensures
        match r {
            Ok(t) => displayed_item(*v, deep) == Ok::<Seq<char>, FailureView>(t@),
            Err(f) => displayed_item(*v, deep) == Err::<Seq<char>, FailureView>(f@),
        },
    decreases v, 1int,
{
    match v {
        ScriptValue::Array(inner) if deep => {
            let mut sep: Vec<char> = Vec::new();
            sep.push(' ');
            assert(inner@.take(inner@.len() as int) =~= inner@);
            display_items(inner, inner.len(), sep.as_slice(), true)
        },
        _ => display_chars(v),
    }
}

/// How the first `n` items read, with `sep` between them.
fn display_items(items: &Vec<ScriptValue>, n: usize, sep: &[char], deep: bool) -> (r: Result<
    Vec<char>,
    Failure,
>)
    requires
        n <= items.len(),
    ensures
        match r {
            Ok(t) => displayed_items(items@.take(n as int), sep@, deep) == Ok::<
                Seq<char>,
                FailureView,
            >(t@),
            Err(f) => displayed_items(items@.take(n as int), sep@, deep) == Err::<
                Seq<char>,
                FailureView,
            >(f@),
        },
    decreases items@, n,
{
    if n == 0 {
        return Ok(Vec::new());
    }
    assert(items@.take(n as int).drop_last() =~= items@.take(n - 1));
    let mut out = match display_items(items, n - 1, sep, deep) {
        Ok(head) => head,
        Err(f) => {
            return Err(f);
        },
    };
    match display_item(&items[n - 1], deep) {
        Ok(t) => {
            if n > 1 {
                let ghost head = out@;
                out.extend_from_slice(sep);
                out.extend_from_slice(t.as_slice());
                assert(out@ =~= head + sep@ + t@);
                Ok(out)
            } else {
                Ok(t)
            }
        },
        Err(f) => Err(f),
    }
}

/// How `v` reads when it takes the place of an inline expression: a string
/// in quotes, a number by its numeral, an array in brackets with commas, a
/// command array as its items with spaces between.
pub fn value2str(v: &ScriptValue) -> (r: Result<String, Failure>)
    ensures
        match r {
            Ok(t) => displayed(*v) == Ok::<Seq<char>, FailureView>(t@),
            Err(f) => displayed(*v) == Err::<Seq<char>, FailureView>(f@),
        },
{
    match display_chars(v) {
        Ok(t) => Ok(string_from_chars(t.as_slice())),
        Err(f) => Err(f),
    }
}

/// Whether `c` is a decimal digit.
pub open spec fn is_digit(c: char) -> bool {
    0x30 <= c as u32 <= 0x39
}

/// The number that the digits `s` stand for.
pub open spec fn number(s: Seq<char>) -> nat
    decreases s.len(),
{
    if s.len() == 0 {
        0
    } else {
        number(s.drop_last()) * 10 + (s.last() as u32 - 0x30) as nat
    }
}

/// Every character of `s` is a decimal digit.
pub open spec fn all_digits(s: Seq<char>) -> bool {
    forall|i: int| 0 <= i < s.len() ==> is_digit(#[trigger] s[i])
}

/// `s` starts with a sign.
pub open spec fn is_signed(s: Seq<char>) -> bool {
    s.len() > 0 && (s[0] == '-' || s[0] == '+')
}

/// `s` without its sign.
pub open spec fn unsigned_part(s: Seq<char>) -> Seq<char> {
    if is_signed(s) {
        s.drop_first()
    } else {
        s
    }
}

/// The integer that `s` stands for: a sign, or none, and then digits only,
/// at least one.
pub open spec fn integer(s: Seq<char>) -> Option<int> {
    let digits = unsigned_part(s);
    if digits.len() > 0 && all_digits(digits) {
        Some(
            if s[0] == '-' {
                -(number(digits) as int)
            } else {
                number(digits) as int
            },
        )
    } else {
        None
    }
}

/// The integer that `s` stands for, where it fits.
pub open spec fn i32_of(s: Seq<char>) -> Option<i32> {
    match integer(s) {
        Some(v) if i32::MIN <= v <= i32::MAX => Some(v as i32),
        _ => None,
    }
}

proof fn lemma_number_grows(s: Seq<char>, k: int)
    requires
        0 <= k <= s.len(),
    ensures
        number(s.take(k)) <= number(s),
    decreases s.len() - k,
{
    if k < s.len() {
        assert(s.take(k + 1).drop_last() =~= s.take(k));
        lemma_number_grows(s, k + 1);
    } else {
        assert(s.take(k) =~= s);
    }
}

/// Reads `s` as an integer.
pub fn parse_i32(s: &[char]) -> (r: Option<i32>)
    ensures
        r == i32_of(s@),
{
    let signed = s.len() > 0 && (s[0] == '-' || s[0] == '+');
    let first: usize = if signed {
        1
    } else {
        0
    };
    let ghost digits = unsigned_part(s@);
    if s.len() == first {
        return None;
    }
    let limit: i64 = 2147483648;
    let mut acc: i64 = 0;
    let mut i: usize = first;
    while i < s.len()
        invariant
            first <= i <= s.len(),
            first <= 1,
            digits == unsigned_part(s@),
            digits == s@.subrange(first as int, s@.len() as int),
            all_digits(digits.take(i - first)),
            acc == number(digits.take(i - first)),
            0 <= acc <= limit,
            limit == 2147483648,
        decreases s.len() - i,
    {
        let n: u32 = s[i] as u32;
        if n < 0x30 || n > 0x39 {
            assert(!is_digit(digits[i - first]));
            return None;
        }
        assert(digits.take(i - first + 1).drop_last() =~= digits.take(i - first));
        assert(all_digits(digits.take(i - first + 1))) by {
            assert forall|k: int| 0 <= k < i - first + 1 implies is_digit(
                #[trigger] digits.take(i - first + 1)[k],
            ) by {
                if k < i - first {
                    assert(digits.take(i - first)[k] == digits[k]);
                }
            }
        }
        let next = acc * 10 + (n - 0x30) as i64;
        if next > limit {
            proof {
                lemma_number_grows(digits, i - first + 1);
            }
            return None;
        }
        acc = next;
        i += 1;
    }
    assert(digits.take(i - first) =~= digits);
    if s[0] == '-' {
        Some((-acc) as i32)
    } else if acc < limit {
        Some(acc as i32)
    } else {
        None
    }
}

/// What a word of a command line is taken for.
pub enum WordKind {
    Int(i32),
    Float,
    Bool(bool),
    Text,
}

/// What `word` is taken for: an integer where it reads as one; else a
/// floating point number where `float` says that it reads as one; else a
/// truth value where it is `true` or `false`; else a string.
pub open spec fn word_kind(word: Seq<char>, float: bool) -> WordKind {
    match i32_of(word) {
        Some(i) => WordKind::Int(i),
        None => if float {
            WordKind::Float
        } else if word == "true"@ {
            WordKind::Bool(true)
        } else if word == "false"@ {
            WordKind::Bool(false)
        } else {
            WordKind::Text
        },
    }
}

/// The value of a word of a command line. `float` says whether the word
/// reads as a floating point number.
pub fn cmdstr2value(word: &str, float: bool) -> (r: ScriptValue)
    ensures
        match word_kind(word@, float) {
            WordKind::Int(i) => r == ScriptValue::Int(i),
            WordKind::Float => r matches ScriptValue::Float(t) && t@ == word@,
            WordKind::Bool(b) => r == ScriptValue::Bool(b),
            WordKind::Text => r matches ScriptValue::Str(t) && t@ == word@,
        },
{
    let chars = chars_of(word);
    match parse_i32(chars.as_slice()) {
        Some(i) => ScriptValue::Int(i),
        None => {
            if float {
                ScriptValue::Float(String::from_str(word))
            } else if crate::text::same_text(chars.as_slice(), "true") {
                ScriptValue::Bool(true)
            } else if crate::text::same_text(chars.as_slice(), "false") {
                ScriptValue::Bool(false)
            } else {
                ScriptValue::Str(String::from_str(word))
            }
        },
    }
}

} // verus!

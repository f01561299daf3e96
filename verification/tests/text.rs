use alias_exe::failure::{Failure, FailureKind, MatchRange, Piece};
use alias_exe::text::{
    chars_of, contains_whitespace, index_of, is_whitespace, matches_at, push_decimal,
    push_signed_decimal, same_text, split_lines, trim,
};

fn chars(s: &str) -> Vec<char> {
    s.chars().collect()
}

fn text(v: &[char]) -> String {
    v.iter().collect()
}

#[test]
fn characters_of_a_string() {
    assert_eq!(chars_of("aあb"), vec!['a', 'あ', 'b']);
    assert_eq!(chars_of(""), Vec::<char>::new());
}

#[test]
fn white_space_is_the_unicode_property() {
    let mut c = 0u32;
    while c <= 0x10FFFF {
        if let Some(ch) = char::from_u32(c) {
            assert_eq!(is_whitespace(ch), ch.is_whitespace(), "U+{:04X}", c);
        }
        c += 1;
    }
}

#[test]
fn trim_agrees_with_the_standard_library() {
    for s in ["", " ", "a", "  a b  ", "\t\r\nx\u{3000}", "\u{A0}y\u{2003}z\u{85}", " \n "] {
        assert_eq!(text(trim(&chars(s))), s.trim(), "{:?}", s);
    }
}

#[test]
fn lines_agree_with_the_standard_library() {
    for s in ["", "a", "a\n", "\n", "a\nb", "a\n\nb\n", "\n\n", "a\r\nb"] {
        let got: Vec<String> = split_lines(&chars(s)).iter().map(|l| text(l)).collect();
        let want: Vec<String> = s.split('\n').map(|l| l.to_string()).collect();
        assert_eq!(got, want, "{:?}", s);
    }
}

#[test]
fn searching() {
    let t = chars("a=b=c");
    assert_eq!(index_of(&t, '=', 0), 1);
    assert_eq!(index_of(&t, '=', 2), 3);
    assert_eq!(index_of(&t, '=', 4), 5);
    assert_eq!(index_of(&t, 'x', 0), 5);
    assert!(matches_at(&t, 2, &chars("b=")));
    assert!(!matches_at(&t, 3, &chars("b=")));
    assert!(!matches_at(&t, 4, &chars("cd")));
    assert!(matches_at(&t, 5, &chars("")));
    assert!(!matches_at(&t, 6, &chars("")));
    assert!(same_text(&t, "a=b=c"));
    assert!(!same_text(&t, "a=b=d"));
    assert!(!same_text(&t, "a=b"));
    assert!(contains_whitespace(&chars("a b")));
    assert!(contains_whitespace(&chars("a\u{3000}b")));
    assert!(!contains_whitespace(&chars("ab")));
}

#[test]
fn decimal_numerals() {
    for n in [0u64, 1, 9, 10, 11, 99, 100, 12345, u64::MAX] {
        let mut out = chars("n=");
        push_decimal(&mut out, n);
        assert_eq!(text(&out), format!("n={}", n));
    }
    for i in [0i64, 1, -1, 10, -10, 2147483647, -2147483648, i64::MAX, i64::MIN] {
        let mut out = Vec::new();
        push_signed_decimal(&mut out, i);
        assert_eq!(text(&out), format!("{}", i));
    }
}

#[test]
fn plain_failure_renders_as_its_text() {
    let f = Failure::plain(FailureKind::Execution, "broken");
    assert_eq!(f.render("<", ">"), "broken");
    assert_eq!(f.text(), "broken");
    assert!(!f.decorated);
    assert_eq!(f.message, vec![Piece { marked: false, text: "broken".to_string() }]);
}

#[test]
fn labelled_failure_marks_the_label() {
    let f = Failure::labelled(FailureKind::Script, "mruby failed", &chars("oops"));
    assert_eq!(f.kind, FailureKind::Script);
    assert_eq!(f.render("\u{1b}[31m", "\u{1b}[0m"), "\u{1b}[31mmruby failed\u{1b}[0m: oops");
    assert_eq!(f.text(), "mruby failed: oops");
}

#[test]
fn decoration_happens_once() {
    let f = Failure::labelled(FailureKind::Substitution, "failed", &chars("bad"));
    let once = f.decorate(&chars("say $* now"), MatchRange { start: 4, end: 6 });
    assert!(once.decorated);
    assert_eq!(once.render("[", "]"), "[failed]: bad\nsay [$*] now");
    let twice = once.decorate(&chars("other text"), MatchRange { start: 0, end: 5 });
    assert_eq!(twice.render("[", "]"), "[failed]: bad\nsay [$*] now");
}

#[test]
fn failure_with_spans_marks_each_span() {
    let spans = vec![MatchRange { start: 0, end: 1 }, MatchRange { start: 2, end: 4 }];
    let f = Failure::with_spans(FailureKind::Nesting, "failed", &chars("why"), &chars("abcde"), &spans);
    assert!(f.decorated);
    assert_eq!(f.render("[", "]"), "[failed]: why\n\n[a]b[cd]e");
    let none = Failure::with_spans(FailureKind::Nesting, "failed", &chars("why"), &chars("abc"), &Vec::new());
    assert_eq!(none.render("[", "]"), "[failed]: why\n\nabc");
}

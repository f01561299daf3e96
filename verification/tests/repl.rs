use alias_exe::args::{ArgToken, InvocationArgs};
use alias_exe::failure::MatchRange;
use alias_exe::inline::Substitution;
use alias_exe::failure::FailureKind;
use alias_exe::repl::{
    nested_match, partition_re, replace_all_chars, replace_all_func_nested, splice, Pattern,
};

fn chars(s: &str) -> Vec<char> {
    s.chars().collect()
}

fn text(v: &[char]) -> String {
    v.iter().collect()
}

fn range(start: usize, end: usize) -> MatchRange {
    MatchRange { start, end }
}

#[test]
fn no_substitution_no_match() {
    assert_eq!(nested_match(&Substitution, &chars("echo a")), None);
    assert_eq!(nested_match(&Substitution, &chars("")), None);
    assert_eq!(nested_match(&Substitution, &chars("$(never closed")), None);
    assert_eq!(nested_match(&Substitution, &chars("<%= never closed )")), None);
}

#[test]
fn single_substitution_is_found() {
    assert_eq!(nested_match(&Substitution, &chars("a $(b) c")), Some(range(2, 6)));
    assert_eq!(nested_match(&Substitution, &chars("a <%= 1 %> c")), Some(range(2, 10)));
    assert_eq!(nested_match(&Substitution, &chars("$()")), Some(range(0, 3)));
    assert_eq!(nested_match(&Substitution, &chars("<%=%>")), Some(range(0, 5)));
}

#[test]
fn innermost_command_is_resolved_first() {
    let t = chars("$($(echo a))");
    assert_eq!(nested_match(&Substitution, &t), Some(range(2, 11)));
    let once = splice(&t, range(2, 11), &chars("a"));
    assert_eq!(text(&once), "$(a)");
    assert_eq!(nested_match(&Substitution, &once), Some(range(0, 4)));
    let twice = splice(&once, range(0, 4), &chars("done"));
    assert_eq!(text(&twice), "done");
    assert_eq!(nested_match(&Substitution, &twice), None);
}

#[test]
fn three_levels_resolve_inside_out() {
    let t = chars("x $(a $(b $(c))) y");
    assert_eq!(nested_match(&Substitution, &t), Some(range(10, 14)));
}

#[test]
fn expression_within_command_is_innermost() {
    let t = chars("$(echo <%= 1+1 %>)");
    // the command reaches to the first `)`, which is the last character here
    assert_eq!(Substitution.find_at(&t, 0), Some(range(0, 18)));
    assert_eq!(Substitution.find_at(&t, 1), Some(range(7, 17)));
    // the inner match ends elsewhere, so the outer one is taken
    assert_eq!(nested_match(&Substitution, &t), Some(range(0, 18)));
}

#[test]
fn leftmost_match_decides_the_end() {
    let t = chars("$(a) $($(b))");
    assert_eq!(nested_match(&Substitution, &t), Some(range(0, 4)));
}

#[test]
fn search_starts_at_the_offset_given() {
    let t = chars("$(a) $(b)");
    assert_eq!(Substitution.find_at(&t, 0), Some(range(0, 4)));
    assert_eq!(Substitution.find_at(&t, 1), Some(range(5, 9)));
    assert_eq!(Substitution.find_at(&t, 6), None);
    assert_eq!(Substitution.find_at(&t, 9), None);
}

#[test]
fn splice_replaces_the_span() {
    let t = chars("hello world");
    assert_eq!(text(&splice(&t, range(0, 5), &chars("bye"))), "bye world");
    assert_eq!(text(&splice(&t, range(5, 5), &chars(","))), "hello, world");
    assert_eq!(text(&splice(&t, range(6, 11), &chars(""))), "hello ");
}

#[test]
fn partition_cuts_at_the_leftmost_match() {
    assert_eq!(
        partition_re(&Substitution, "a $(b) c $(d)"),
        Some(("a ".to_string(), "$(b)".to_string(), " c $(d)".to_string()))
    );
    assert_eq!(
        partition_re(&ArgToken, "$1 rest"),
        Some(("".to_string(), "$1".to_string(), " rest".to_string()))
    );
    assert_eq!(partition_re(&ArgToken, "nothing"), None);
}

#[test]
fn replace_all_keeps_text_between_matches() {
    let a = InvocationArgs::new(vec!["p".to_string(), "1st".to_string()]).unwrap();
    let out = replace_all_chars(&ArgToken, &chars("<$1|$1|$2>"), &a).unwrap();
    assert_eq!(text(&out), "<1st|1st|>");
}

#[test]
fn offsets_count_characters_not_bytes() {
    let t = chars("あ$(い)う");
    assert_eq!(nested_match(&Substitution, &t), Some(range(1, 5)));
    assert_eq!(text(&splice(&t, range(1, 5), &chars("え"))), "あえう");
}

#[test]
fn nested_replacement_searches_replacements_again() {
    let chain =
        InvocationArgs::new(vec!["p".to_string(), "$2".to_string(), "x".to_string()]).unwrap();
    assert_eq!(replace_all_func_nested(&ArgToken, "<$1>", &chain, 2).unwrap(), "<x>");
    assert_eq!(replace_all_func_nested(&ArgToken, "<$1> $# $2", &chain, 10).unwrap(), "<x> 2 x");
    assert_eq!(replace_all_func_nested(&ArgToken, "nothing", &chain, 0).unwrap(), "nothing");
}

#[test]
fn nested_replacement_gives_up_after_its_rounds() {
    let chain =
        InvocationArgs::new(vec!["p".to_string(), "$2".to_string(), "x".to_string()]).unwrap();
    let failure = replace_all_func_nested(&ArgToken, "<$1>", &chain, 1).unwrap_err();
    assert_eq!(failure.kind, FailureKind::Substitution);
    assert_eq!(failure.render("[", "]"), "[failed]: nested substitution does not come to an end");
    let own = InvocationArgs::new(vec!["p".to_string(), "$1".to_string()]).unwrap();
    assert!(replace_all_func_nested(&ArgToken, "$1", &own, 1000).is_err());
    // a substitution is no token: the resolver hands it back as it is, for ever
    assert!(replace_all_func_nested(&Substitution, "$(a)", &own, 50).is_err());
}

#[test]
fn nested_replacement_decorates_the_failure_with_the_text_of_its_round() {
    let args = InvocationArgs::new(vec!["p".to_string(), "$*".to_string()]).unwrap();
    let failure = replace_all_func_nested(&ArgToken, "a $1 b", &args, 10).unwrap_err();
    assert_eq!(
        failure.render("[", "]"),
        "[failed]: $* is not supported, maybe \"$+\" ?\na [$*] b"
    );
}

use alias_exe::args::{parse_arg, str_join, substitute_args, ArgToken, InvocationArgs};
use alias_exe::failure::{FailureKind, MatchRange};
use alias_exe::repl::{replace_all_func, Pattern};

fn args(items: &[&str]) -> InvocationArgs {
    InvocationArgs::new(items.iter().map(|s| s.to_string()).collect()).unwrap()
}

fn substitute(body: &str, a: &InvocationArgs) -> Result<String, String> {
    let chars: Vec<char> = body.chars().collect();
    match substitute_args(&chars, a) {
        Ok(t) => Ok(t.into_iter().collect()),
        Err(f) => Err(f.render("[", "]")),
    }
}

#[test]
fn invocation_needs_a_name() {
    assert!(InvocationArgs::new(Vec::new()).is_none());
    let a = args(&["prog"]);
    assert_eq!(a.name(), "prog");
    assert_eq!(a.count(), 0);
    assert_eq!(a.get(0), Some("prog"));
    assert_eq!(a.get(1), None);
}

#[test]
fn count_token_is_the_number_of_user_arguments() {
    assert_eq!(parse_arg("$#", &args(&["prog"])).unwrap(), "0");
    assert_eq!(parse_arg("$#", &args(&["prog", "a", "b", "c"])).unwrap(), "3");
    let many: Vec<String> = (0..13).map(|i| i.to_string()).collect();
    let a = InvocationArgs::new(many).unwrap();
    assert_eq!(parse_arg("$#", &a).unwrap(), "12");
}

#[test]
fn numbered_tokens_are_the_arguments_or_empty() {
    let a = args(&["prog", "one", "two"]);
    assert_eq!(parse_arg("$0", &a).unwrap(), "prog");
    assert_eq!(parse_arg("$1", &a).unwrap(), "one");
    assert_eq!(parse_arg("$2", &a).unwrap(), "two");
    for k in 3..=9 {
        assert_eq!(parse_arg(&format!("${}", k), &a).unwrap(), "");
    }
}

#[test]
fn ninth_argument_is_reachable() {
    let a = args(&["p", "1", "2", "3", "4", "5", "6", "7", "8", "nine", "ten"]);
    assert_eq!(parse_arg("$9", &a).unwrap(), "nine");
    assert_eq!(parse_arg("$#", &a).unwrap(), "10");
}

#[test]
fn quoted_at_quotes_each_argument_with_white_space() {
    let a = args(&["prog", "a b", "c"]);
    assert_eq!(parse_arg("\"$@\"", &a).unwrap(), "\"a b\" c");
}

#[test]
fn quoted_plus_wraps_all_arguments_once() {
    let a = args(&["prog", "a b", "c"]);
    assert_eq!(parse_arg("\"$+\"", &a).unwrap(), "\"a b c\"");
}

#[test]
fn list_tokens_without_arguments() {
    let a = args(&["prog"]);
    assert_eq!(parse_arg("\"$@\"", &a).unwrap(), "");
    assert_eq!(parse_arg("\"$+\"", &a).unwrap(), "\"\"");
}

#[test]
fn unquoted_star_fails_and_suggests_quoted_form() {
    let failure = parse_arg("$*", &args(&["prog", "a"])).unwrap_err();
    assert_eq!(failure.kind, FailureKind::Substitution);
    assert!(!failure.decorated);
    assert_eq!(failure.text(), "failed: $* is not supported, maybe \"$+\" ?");
}

#[test]
fn unquoted_at_fails_and_suggests_quoted_form() {
    let failure = parse_arg("$@", &args(&["prog", "a"])).unwrap_err();
    assert_eq!(failure.text(), "failed: $@ is not supported, maybe \"$@\" ?");
}

#[test]
fn quoted_star_fails_and_suggests_plus() {
    let failure = parse_arg("\"$*\"", &args(&["prog", "a"])).unwrap_err();
    assert_eq!(failure.text(), "failed: \"$*\" is not supported, maybe \"$+\" ?");
}

#[test]
fn unknown_tokens_pass_through() {
    let a = args(&["prog", "a"]);
    assert_eq!(parse_arg("$+", &a).unwrap(), "$+");
    assert_eq!(parse_arg("$x", &a).unwrap(), "$x");
    assert_eq!(parse_arg("plain", &a).unwrap(), "plain");
    assert_eq!(parse_arg("", &a).unwrap(), "");
}

#[test]
fn substitution_replaces_every_token() {
    let a = args(&["prog", "x y", "z"]);
    assert_eq!(substitute("echo $0 $1 $2 $3 $#", &a).unwrap(), "echo prog x y z  2");
    assert_eq!(substitute("run \"$@\" and \"$+\"", &a).unwrap(), "run \"x y\" z and \"x y z\"");
    assert_eq!(substitute("no tokens $ here $", &a).unwrap(), "no tokens $ here $");
    assert_eq!(substitute("", &a).unwrap(), "");
}

#[test]
fn substitution_is_single_pass() {
    let a = args(&["prog", "$2", "two"]);
    assert_eq!(substitute("echo $1", &a).unwrap(), "echo $2");
    let b = args(&["prog", "$", "1"]);
    assert_eq!(substitute("$1$2", &b).unwrap(), "$1");
}

#[test]
fn unquoted_star_fails_at_any_position() {
    let a = args(&["prog", "a"]);
    for body in ["$*", "echo $*", "$* echo", "a\nb $* c\n", "$$*", "\"$*", "$1$*", "x\"$+\"$*"] {
        let failure = substitute(body, &a).unwrap_err();
        assert!(failure.starts_with("[failed]: $* is not supported, maybe \"$+\" ?\n"), "{}", body);
    }
}

#[test]
fn unquoted_at_fails_at_any_position() {
    let a = args(&["prog", "a"]);
    for body in ["$@", "echo $@", "$@\"", "\"$@ ", "a\n$@", "\"$+\"$@\""] {
        let failure = substitute(body, &a).unwrap_err();
        assert!(failure.starts_with("[failed]: $@ is not supported, maybe \"$@\" ?\n"), "{}", body);
    }
    assert_eq!(substitute("\"$@\"", &a).unwrap(), "a");
}

#[test]
fn failure_is_decorated_with_the_body_and_the_token() {
    let a = args(&["prog", "a"]);
    assert_eq!(
        substitute("echo $1 $* end", &a).unwrap_err(),
        "[failed]: $* is not supported, maybe \"$+\" ?\necho $1 [$*] end"
    );
    assert_eq!(
        substitute("x \"$*\" y", &a).unwrap_err(),
        "[failed]: \"$*\" is not supported, maybe \"$+\" ?\nx [\"$*\"] y"
    );
}

#[test]
fn first_failing_token_is_reported() {
    let a = args(&["prog"]);
    assert_eq!(
        substitute("$@ $*", &a).unwrap_err(),
        "[failed]: $@ is not supported, maybe \"$@\" ?\n[$@] $*"
    );
}

#[test]
fn replace_all_func_works_on_strings() {
    let a = args(&["prog", "v"]);
    assert_eq!(replace_all_func(&ArgToken, "a $1 b", &a).unwrap(), "a v b");
    let failure = replace_all_func(&ArgToken, "a $* b", &a).unwrap_err();
    assert!(failure.decorated);
}

#[test]
fn token_pattern_finds_leftmost_token() {
    let text: Vec<char> = "a \"$@\" $1".chars().collect();
    assert_eq!(ArgToken.find_at(&text, 0), Some(MatchRange { start: 2, end: 6 }));
    assert_eq!(ArgToken.find_at(&text, 3), Some(MatchRange { start: 3, end: 5 }));
    assert_eq!(ArgToken.find_at(&text, 4), Some(MatchRange { start: 7, end: 9 }));
    assert_eq!(ArgToken.find_at(&text, 8), None);
    assert_eq!(ArgToken.find_at(&text, 9), None);
}

#[test]
fn str_join_puts_separator_between_items() {
    let items = vec!["a".to_string(), "b".to_string(), "c".to_string()];
    assert_eq!(str_join(&items, ", "), "a, b, c");
    assert_eq!(str_join(&vec!["only".to_string()], " "), "only");
    assert_eq!(str_join(&Vec::new(), " "), "");
    assert_eq!(str_join(&vec!["".to_string(), "".to_string()], "-"), "-");
}

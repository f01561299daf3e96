use alias_exe::directive::{parse_cmd_type, Directive};
use alias_exe::failure::FailureKind;

fn error(line: &str) -> String {
    let failure = parse_cmd_type(line).unwrap_err();
    assert_eq!(failure.kind, FailureKind::DirectiveFormat);
    assert!(failure.decorated);
    failure.render("[", "]")
}

#[test]
fn set_with_key_and_value() {
    assert_eq!(
        parse_cmd_type("@set A=B").unwrap(),
        Directive::SetEnv("A".to_string(), "B".to_string())
    );
}

#[test]
fn set_without_equals_is_a_format_error() {
    assert_eq!(error("@set A"), "[failed]: illegal @set format\n\n[@set] A");
    assert_eq!(error("@set"), "[failed]: illegal @set format\n\n[@set]");
    assert_eq!(error("@set =B"), "[failed]: illegal @set format\n\n[@set] =B");
}

#[test]
fn set_splits_at_the_first_equals() {
    assert_eq!(
        parse_cmd_type("@set PATH=a=b;c").unwrap(),
        Directive::SetEnv("PATH".to_string(), "a=b;c".to_string())
    );
    assert_eq!(
        parse_cmd_type("@set K=").unwrap(),
        Directive::SetEnv("K".to_string(), "".to_string())
    );
}

#[test]
fn set_trims_the_key_and_keeps_the_value() {
    assert_eq!(
        parse_cmd_type("@set   KEY  = some value  ").unwrap(),
        Directive::SetEnv("KEY".to_string(), " some value".to_string())
    );
}

#[test]
fn pushd_takes_the_trimmed_rest() {
    assert_eq!(
        parse_cmd_type("@pushd   C:\\Program Files  ").unwrap(),
        Directive::PushDir("C:\\Program Files".to_string())
    );
}

#[test]
fn pushd_without_path_is_an_error() {
    assert_eq!(error("@pushd"), "[failed]: @pushd path is none\n\n[@pushd]");
    assert_eq!(error("@pushd   "), "[failed]: @pushd path is none\n\n[@pushd]   ");
}

#[test]
fn popd_takes_nothing() {
    assert_eq!(parse_cmd_type("@popd").unwrap(), Directive::PopDir);
    assert_eq!(parse_cmd_type("@popd  ").unwrap(), Directive::PopDir);
    assert_eq!(error("@popd now"), "[failed]: @popd unknown args\n\n[@popd] now");
}

#[test]
fn unknown_keyword_is_named() {
    assert_eq!(error("@frob x y"), "[failed]: @frob is unknown @command\n\n[@frob] x y");
    assert_eq!(error("@set=A"), "[failed]: @set=A is unknown @command\n\n[@set=A]");
    assert_eq!(error("@popdx"), "[failed]: @popdx is unknown @command\n\n[@popdx]");
}

#[test]
fn lone_at_is_an_illegal_command() {
    assert_eq!(error("@"), "[failed]: illegal @command format\n\n[@]");
    assert_eq!(error("@ set A=B"), "[failed]: illegal @command format\n\n[@] set A=B");
}

#[test]
fn other_lines_are_shell_commands_unchanged() {
    assert_eq!(
        parse_cmd_type("echo @set A=B").unwrap(),
        Directive::ShellCommand("echo @set A=B".to_string())
    );
    assert_eq!(parse_cmd_type("").unwrap(), Directive::ShellCommand("".to_string()));
    assert_eq!(parse_cmd_type(" @popd").unwrap(), Directive::ShellCommand(" @popd".to_string()));
}

#[test]
fn argument_ends_at_the_line() {
    assert_eq!(
        parse_cmd_type("@pushd here\nthere").unwrap(),
        Directive::PushDir("here".to_string())
    );
}

#[test]
fn wide_space_ends_the_keyword() {
    assert_eq!(
        parse_cmd_type("@pushd\u{3000}dir").unwrap(),
        Directive::PushDir("dir".to_string())
    );
}

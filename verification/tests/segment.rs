use alias_exe::directive::{parse_cmd_type, Directive};
use alias_exe::segment::{split_source_func, Segment};

fn shell(s: &str) -> Segment {
    Segment::ShellLine(s.to_string())
}

fn script(s: &str) -> Segment {
    Segment::ScriptBlock(s.to_string())
}

#[test]
fn plain_body_is_one_shell_line_per_kept_line() {
    let body = "echo one\n\n  # a comment\n   echo two  \n#other\necho three\n";
    let segments = split_source_func(body);
    assert_eq!(segments, vec![shell("echo one"), shell("echo two"), shell("echo three")]);
    let directives: Vec<Directive> =
        segments.iter().map(|s| parse_cmd_type(s.text()).unwrap()).collect();
    assert_eq!(
        directives,
        vec![
            Directive::ShellCommand("echo one".to_string()),
            Directive::ShellCommand("echo two".to_string()),
            Directive::ShellCommand("echo three".to_string()),
        ]
    );
}

#[test]
fn empty_body_has_no_segment() {
    assert_eq!(split_source_func(""), Vec::new());
    assert_eq!(split_source_func("\n\n  \n"), Vec::new());
    assert_eq!(split_source_func("# only a comment"), Vec::new());
}

#[test]
fn fenced_block_is_one_script_segment() {
    let body = "echo before\n```ruby\nputs 1\nputs 2\n```\necho after";
    assert_eq!(
        split_source_func(body),
        vec![shell("echo before"), script("puts 1\nputs 2"), shell("echo after")]
    );
}

#[test]
fn fences_may_be_indented_and_padded() {
    let body = "  ```ruby  \n\n  x = 1  \n\n   ```   \n";
    assert_eq!(split_source_func(body), vec![script("x = 1")]);
}

#[test]
fn two_blocks_and_lines_interleave_in_source_order() {
    let body = "a\n```ruby\n1\n```\nb\nc\n```ruby\n2\n```\nd";
    assert_eq!(
        split_source_func(body),
        vec![shell("a"), script("1"), shell("b"), shell("c"), script("2"), shell("d")]
    );
}

#[test]
fn block_reaches_to_the_first_close() {
    let body = "```ruby\na\n```\nb\n```";
    assert_eq!(split_source_func(body), vec![script("a"), shell("b"), shell("```")]);
}

#[test]
fn comment_marker_inside_a_block_is_kept() {
    let body = "```ruby\n# ruby comment\nputs 1\n```";
    assert_eq!(split_source_func(body), vec![script("# ruby comment\nputs 1")]);
}

#[test]
fn block_with_nothing_inside_is_empty_script() {
    assert_eq!(split_source_func("```ruby\n```"), vec![script("")]);
}

#[test]
fn open_fence_without_close_is_a_shell_line() {
    assert_eq!(
        split_source_func("```ruby\nputs 1"),
        vec![shell("```ruby"), shell("puts 1")]
    );
}

#[test]
fn fence_with_other_text_is_no_fence() {
    assert_eq!(
        split_source_func("x ```ruby\ny\n```"),
        vec![shell("x ```ruby"), shell("y"), shell("```")]
    );
    assert_eq!(
        split_source_func("```ruby x\ny\n```"),
        vec![shell("```ruby x"), shell("y"), shell("```")]
    );
}

#[test]
fn carriage_returns_are_trimmed() {
    let body = "echo a\r\n```ruby\r\nputs 1\r\n```\r\necho b\r\n";
    assert_eq!(split_source_func(body), vec![shell("echo a"), script("puts 1"), shell("echo b")]);
}

#[test]
fn segment_text_is_its_payload() {
    assert_eq!(shell("x").text(), "x");
    assert_eq!(script("y").text(), "y");
    assert_eq!(shell("x").clone(), shell("x"));
}

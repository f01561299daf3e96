//! The scanners of the library against the same grammar written down as
//! regular expressions.
use alias_exe::directive::{parse_cmd_type, Directive};
use alias_exe::nesting::find_violations;
use alias_exe::segment::{split_source_func, Segment};
use regex::Regex;

fn segments_by_regex(body: &str) -> Vec<Segment> {
    let fence = Regex::new(r"(?ms)^\s*```ruby\s*$\n(.+?)\n^\s*```\s*$").unwrap();
    let comment = Regex::new(r"^#").unwrap();
    let mut out = Vec::new();
    let mut lines = |chunk: &str, out: &mut Vec<Segment>| {
        for line in chunk.trim().split('\n').map(|x| x.trim()).filter(|x| x.len() > 0) {
            if !comment.is_match(line) {
                out.push(Segment::ShellLine(line.to_string()));
            }
        }
    };
    let mut cur = 0;
    for caps in fence.captures_iter(body) {
        let m = caps.get(0).unwrap();
        if m.start() > cur {
            lines(&body[cur..m.start()], &mut out);
        }
        out.push(Segment::ScriptBlock(caps.get(1).unwrap().as_str().trim().to_string()));
        cur = m.end();
    }
    if cur < body.len() {
        lines(&body[cur..], &mut out);
    }
    out
}

#[test]
fn segmenter_agrees_with_the_fence_expression() {
    let bodies = [
        "",
        "echo a",
        "echo a\necho b\n",
        "\n\n  echo a  \n\n# c\n#d\n echo b",
        "```ruby\nputs 1\n```",
        "```ruby\nputs 1\n```\n",
        "a\n```ruby\nputs 1\nputs 2\n```\nb",
        "a\n  ```ruby  \n\n  x\n\n  ```  \nb\n",
        "```ruby\n1\n```\n```ruby\n2\n```",
        "a\n```ruby\n1\n```\nb\nc\n```ruby\n2\n```\nd\n",
        "```ruby\n# comment\nx\n```",
        "```ruby\nnever closed\necho b",
        "``` ruby\nx\n```",
        "x ```ruby\ny\n```",
        "```ruby x\ny\n```",
        "```\nx\n```",
        "echo a\r\n```ruby\r\nputs 1\r\n```\r\necho b\r\n",
        "日本語\n```ruby\nputs 'あ'\n```\n# コメント\nエコー",
        "```ruby\na\n```\nb\n```",
        "```ruby\n```ruby\nx\n```",
        "a\n\n```ruby\n\n\nx\n\n\n```\n\nb",
        "@set A=B\n@pushd dir\n```ruby\np 1\n```\n@popd",
    ];
    for body in bodies {
        assert_eq!(split_source_func(body), segments_by_regex(body), "{:?}", body);
    }
}

fn directive_by_regex(line: &str) -> Result<Directive, String> {
    let at_key_value = Regex::new(r"^(@[^\s]+)(.*)").unwrap();
    let set_key_value = Regex::new(r"^([^=]+)=(.*)").unwrap();
    if !Regex::new(r"^@").unwrap().is_match(line) {
        return Ok(Directive::ShellCommand(line.to_string()));
    }
    let caps = match at_key_value.captures(line) {
        Some(caps) => caps,
        None => return Err("illegal @command format".to_string()),
    };
    let key = caps.get(1).unwrap().as_str();
    let value = caps.get(2).unwrap().as_str().trim();
    match key {
        "@set" => match set_key_value.captures(value) {
            Some(caps) => Ok(Directive::SetEnv(
                caps.get(1).unwrap().as_str().trim().to_string(),
                caps.get(2).unwrap().as_str().to_string(),
            )),
            None => Err("illegal @set format".to_string()),
        },
        "@pushd" if value.len() == 0 => Err("@pushd path is none".to_string()),
        "@pushd" => Ok(Directive::PushDir(value.to_string())),
        "@popd" if value.len() > 0 => Err("@popd unknown args".to_string()),
        "@popd" => Ok(Directive::PopDir),
        _ => Err(format!("{} is unknown @command", key)),
    }
}

#[test]
fn directive_parser_agrees_with_the_directive_expressions() {
    let lines = [
        "",
        "echo a",
        "echo @set A=B",
        " @set A=B",
        "@",
        "@ ",
        "@ set A=B",
        "@set",
        "@set ",
        "@set A",
        "@set A=",
        "@set =B",
        "@set A=B",
        "@set A=B=C",
        "@set   A  =  B  ",
        "@set A B=C D",
        "@set\tA=B",
        "@set\u{3000}A=B",
        "@set=A",
        "@setA=B",
        "@SET A=B",
        "@set A=B\nrest",
        "@set\nA=B",
        "@set A\n=B",
        "@pushd",
        "@pushd   ",
        "@pushd dir",
        "@pushd  C:\\Program Files  ",
        "@pushd a\nb",
        "@pushdx y",
        "@popd",
        "@popd  ",
        "@popd x",
        "@popd\nx",
        "@frob",
        "@frob x y",
        "@@",
        "@日本語 x",
    ];
    for line in lines {
        let got = parse_cmd_type(line).map_err(|f| {
            let text = f.text();
            let detail = text.strip_prefix("failed: ").unwrap();
            detail[..detail.find("\n\n").unwrap()].to_string()
        });
        assert_eq!(got, directive_by_regex(line), "{:?}", line);
    }
}

fn violations_by_regex(text: &str) -> Vec<(usize, usize)> {
    let token = Regex::new(r"(?ms)(\$\(|\(|<%=|%>|\))").unwrap();
    let mut commands: Vec<(usize, usize)> = Vec::new();
    let mut scripts: Vec<(usize, usize)> = Vec::new();
    let mut erred: Vec<(usize, usize)> = Vec::new();
    for m in token.find_iter(text) {
        let here = (m.start(), m.end());
        match m.as_str() {
            "$(" | "(" => commands.push(here),
            "<%=" => scripts.push(here),
            ")" => match commands.pop() {
                Some(open) if scripts.last().map_or(true, |s| open.1 >= s.1) => {}
                _ => erred.push(here),
            },
            _ => match scripts.pop() {
                Some(open) if commands.last().map_or(true, |c| open.1 >= c.1) => {}
                _ => erred.push(here),
            },
        }
    }
    erred.append(&mut commands);
    erred.append(&mut scripts);
    erred.sort_by(|a, b| a.0.cmp(&b.0));
    erred
}

#[test]
fn validator_agrees_with_the_delimiter_expression() {
    let texts = [
        "",
        "echo a",
        "$(a)",
        "$(echo <%= 1+1 %>)",
        "<%= $(a) %>",
        "$(<%=)%>",
        "<%= $( %>)",
        "echo a)",
        "a %> b",
        "$(a <%= b ( c",
        ") <%= $(",
        "((()))",
        "(()",
        "())",
        "$($($(",
        ")))",
        "<%=<%=%>",
        "%>%><%=",
        "$(a)(b)<%=c%>$(d",
        "$ ( < % = % > )",
        "<%(=%>)",
        "$(<%= $(<%= x %>) %>)",
        "$(<%= $(<%= x )%> %>)",
        "a(b<%=c)d%>e(f)%>g<%=h",
    ];
    for text in texts {
        let chars: Vec<char> = text.chars().collect();
        let got: Vec<(usize, usize)> =
            find_violations(&chars).iter().map(|m| (m.start, m.end)).collect();
        assert_eq!(got, violations_by_regex(text), "{:?}", text);
    }
}

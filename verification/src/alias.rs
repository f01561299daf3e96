//! The files of an alias: the link that stands for the program, and the text
//! that holds the body.
use crate::failure::{labelled, marked, plain, Failure, FailureKind, FailureView, Piece};
use crate::path::LISTDIR;
use crate::text::{chars_of, string_from_chars};
use vstd::prelude::*;

verus! {

/// The failure of an alias that would bear the name of the program itself.
pub open spec fn own_name(name: Seq<char>) -> FailureView {
    FailureView {
        kind: FailureKind::Setup,
        message: seq![
            marked("failed"@),
            plain(": original name is invalid: "@),
            marked(name),
        ],
        decorated: false,
    }
}

/// An alias may bear any name but that of the program itself.
pub fn validate(alias_name: &str, program_name: &str) -> (r: Result<(), Failure>)
    ensures
        match r {
            Ok(_) => alias_name@ != program_name@,
            Err(f) => alias_name@ == program_name@ && f@ == own_name(program_name@),
        },
{
    let a = chars_of(alias_name);
    if !crate::text::same_text(a.as_slice(), program_name) {
        return Ok(());
    }
    let mut message: Vec<Piece> = Vec::new();
    message.push(Piece { marked: true, text: String::from_str("failed") });
    message.push(Piece { marked: false, text: String::from_str(": original name is invalid: ") });
    message.push(Piece { marked: true, text: String::from_str(program_name) });
    let f = Failure { kind: FailureKind::Setup, message, decorated: false };
    assert(f@.message =~= own_name(program_name@).message);
    Err(f)
}

/// `dir`, a slash, `name` and `extension`.
pub open spec fn file_in(dir: Seq<char>, name: Seq<char>, extension: Seq<char>) -> Seq<char> {
    dir + seq!['/'] + name + extension
}

fn file_path(dir: &str, name: &str, extension: &str) -> (r: String)
    ensures
        r@ == file_in(dir@, name@, extension@),
{
    let mut out = chars_of(dir);
    out.push('/');
    let n = chars_of(name);
    out.extend_from_slice(n.as_slice());
    let e = chars_of(extension);
    out.extend_from_slice(e.as_slice());
    string_from_chars(out.as_slice())
}

/// The text of the alias `name` in the directory `list_path`.
pub fn alias_txt(list_path: &str, name: &str) -> (r: String)
    ensures
        r@ == file_in(list_path@, name@, ".txt"@),
{
    file_path(list_path, name, ".txt")
}

/// The link of the alias `name`, from the directory of the program.
pub fn alias_exe(name: &str) -> (r: String)
    ensures
        r@ == file_in(LISTDIR@, name@, ".exe"@),
{
    file_path(LISTDIR, name, ".exe")
}

/// The name of the link of the alias `name`, within the directory of the
/// links.
pub fn link_name(name: &str) -> (r: String)
    ensures
        r@ == name@ + ".exe"@,
{
    let mut out = chars_of(name);
    let e = chars_of(".exe");
    out.extend_from_slice(e.as_slice());
    string_from_chars(out.as_slice())
}

/// What a link points to: the program `file_name`, one directory up.
pub fn link_target(file_name: &str) -> (r: String)
    ensures
        r@ == "..\\"@ + file_name@,
{
    let mut out = chars_of("..\\");
    let n = chars_of(file_name);
    out.extend_from_slice(n.as_slice());
    string_from_chars(out.as_slice())
}

/// The failure of removing an alias that has no link.
pub open spec fn no_link(name: Seq<char>) -> FailureView {
    FailureView {
        kind: FailureKind::Setup,
        message: labelled("failed"@, name + ".exe is not found"@),
        decorated: false,
    }
}

/// The failure of removing the alias `name`, which has no link.
pub fn not_found(name: &str) -> (f: Failure)
    ensures
        f@ == no_link(name@),
{
    let mut detail = chars_of(name);
    let tail = chars_of(".exe is not found");
    detail.extend_from_slice(tail.as_slice());
    assert(detail@ =~= name@ + ".exe is not found"@);
    Failure::labelled(FailureKind::Setup, "failed", detail.as_slice())
}

/// The failure of an editor that could not be started.
pub open spec fn no_editor(editor: Seq<char>, why: Seq<char>) -> FailureView {
    FailureView {
        kind: FailureKind::Setup,
        message: labelled("failed"@, "Not found "@ + editor + seq!['\n', '\n'] + why),
        decorated: false,
    }
}

/// The failure of the editor `editor`, which could not be started for the
/// reason `why`.
pub fn editor_not_found(editor: &str, why: &str) -> (f: Failure)
    ensures
        f@ == no_editor(editor@, why@),
{
    let mut detail = chars_of("Not found ");
    let e = chars_of(editor);
    detail.extend_from_slice(e.as_slice());
    detail.push('\n');
    detail.push('\n');
    let w = chars_of(why);
    detail.extend_from_slice(w.as_slice());
    assert(detail@ =~= "Not found "@ + editor@ + seq!['\n', '\n'] + why@);
    Failure::labelled(FailureKind::Setup, "failed", detail.as_slice())
}

} // verus!

//! Where the aliases are kept: the configuration directory under the home
//! directory of the user, and the names of the files in it.
use crate::failure::{labelled, Failure, FailureKind, FailureView};
use crate::text::{chars_of, string_from_chars};
use vstd::prelude::*;

verus! {

/// The directory of the alias files, below the configuration directory and
/// below the directory of the program.
pub const LISTDIR: &'static str = "./list";

/// The environment variables that may name the home directory.
#[derive(Debug, PartialEq, Eq)]
pub struct HomeEnv {
    /// `USERPROFILE`.
    pub userprofile: Option<String>,
    /// `HOMEDRIVE`.
    pub homedrive: Option<String>,
    /// `HOMEPATH`.
    pub homepath: Option<String>,
}

/// The environment, as the contracts see it.
pub struct HomeEnvView {
    pub userprofile: Option<Seq<char>>,
    pub homedrive: Option<Seq<char>>,
    pub homepath: Option<Seq<char>>,
}

/// The characters of a string that may be missing.
pub open spec fn option_text(o: Option<String>) -> Option<Seq<char>> {
    match o {
        Some(s) => Some(s@),
        None => None,
    }
}

/// The characters of a string slice that may be missing.
pub open spec fn option_str(o: Option<&str>) -> Option<Seq<char>> {
    match o {
        Some(s) => Some(s@),
        None => None,
    }
}

impl View for HomeEnv {
    type V = HomeEnvView;

    open spec fn view(&self) -> HomeEnvView {
        HomeEnvView {
            userprofile: option_text(self.userprofile),
            homedrive: option_text(self.homedrive),
            homepath: option_text(self.homepath),
        }
    }
}

/// The failure of an environment that names no home directory.
pub open spec fn no_home() -> FailureView {
    FailureView {
        kind: FailureKind::Setup,
        message: labelled(
            "failed"@,
            "home directory environment variables not found(%USERPROFILE% or %HOMEDRIVE% + %HOMEPATH%)"@,
        ),
        decorated: false,
    }
}

/// The home directory: `USERPROFILE` where it is set, else `HOMEDRIVE`
/// followed by `HOMEPATH` where both are set.
pub open spec fn home_of(env: HomeEnvView) -> Result<Seq<char>, FailureView> {
    match env.userprofile {
        Some(home) => Ok(home),
        None => match (env.homedrive, env.homepath) {
            (Some(drive), Some(path)) => Ok(drive + path),
            _ => Err(no_home()),
        },
    }
}

/// `dir`, a backslash, and `name`.
pub open spec fn below(dir: Seq<char>, name: Seq<char>) -> Seq<char> {
    dir + seq!['\\'] + name
}

/// The configuration directory below `home`.
pub open spec fn cfg_dir(home: Seq<char>) -> Seq<char> {
    below(home, ".alias-exe"@)
}

/// The directory of the alias texts below `home`.
pub open spec fn cfg_list_dir(home: Seq<char>) -> Seq<char> {
    below(cfg_dir(home), LISTDIR@)
}

fn join_below(dir: &[char], name: &str) -> (r: Vec<char>)
    ensures
        r@ == below(dir@, name@),
{
    let mut out: Vec<char> = Vec::new();
    out.extend_from_slice(dir);
    out.push('\\');
    let n = chars_of(name);
    out.extend_from_slice(n.as_slice());
    out
}

/// The home directory that `env` names.
pub fn home_path(env: &HomeEnv) -> (r: Result<String, Failure>)
    ensures
        match r {
            Ok(home) => home_of(env@) == Ok::<Seq<char>, FailureView>(home@),
            Err(f) => home_of(env@) == Err::<Seq<char>, FailureView>(f@),
        },
{
    match &env.userprofile {
        Some(home) => Ok(home.clone()),
        None => match (&env.homedrive, &env.homepath) {
            (Some(drive), Some(path)) => {
                let mut out = chars_of(drive.as_str());
                let p = chars_of(path.as_str());
                out.extend_from_slice(p.as_slice());
                assert(out@ =~= drive@ + path@);
                Ok(string_from_chars(out.as_slice()))
            },
            _ => {
                let detail = chars_of(
                    "home directory environment variables not found(%USERPROFILE% or %HOMEDRIVE% + %HOMEPATH%)",
                );
                Err(Failure::labelled(FailureKind::Setup, "failed", detail.as_slice()))
            },
        },
    }
}

/// The configuration directory, below the home directory that `env` names.
pub fn cfg_path(env: &HomeEnv) -> (r: Result<String, Failure>)
    ensures
        match r {
            Ok(dir) => home_of(env@) matches Ok(home) && dir@ == cfg_dir(home),
            Err(f) => home_of(env@) == Err::<Seq<char>, FailureView>(f@),
        },
{
    match home_path(env) {
        Ok(home) => {
            let h = chars_of(home.as_str());
            let dir = join_below(h.as_slice(), ".alias-exe");
            Ok(string_from_chars(dir.as_slice()))
        },
        Err(f) => Err(f),
    }
}

/// The directory of the alias texts, below the configuration directory.
pub fn cfg_list_path(env: &HomeEnv) -> (r: Result<String, Failure>)
    ensures
        match r {
            Ok(dir) => home_of(env@) matches Ok(home) && dir@ == cfg_list_dir(home),
            Err(f) => home_of(env@) == Err::<Seq<char>, FailureView>(f@),
        },
{
    match cfg_path(env) {
        Ok(cfg) => {
            let c = chars_of(cfg.as_str());
            let dir = join_below(c.as_slice(), LISTDIR);
            Ok(string_from_chars(dir.as_slice()))
        },
        Err(f) => Err(f),
    }
}

/// `c` is `lower` or the capital letter `upper`.
pub open spec fn is_letter(c: char, lower: char, upper: char) -> bool {
    c == lower || c == upper
}

/// `path` ends with a dot and the three letters, in small or capital.
pub open spec fn has_extension(path: Seq<char>, a: char, b: char, c: char) -> bool {
    let n = path.len() as int;
    &&& n >= 4
    &&& path[n - 4] == '.'
    &&& is_letter(path[n - 3], a, upper(a))
    &&& is_letter(path[n - 2], b, upper(b))
    &&& is_letter(path[n - 1], c, upper(c))
}

/// The capital of a small ASCII letter.
pub open spec fn upper(c: char) -> char {
    if c == 'e' {
        'E'
    } else if c == 'x' {
        'X'
    } else if c == 't' {
        'T'
    } else {
        c
    }
}

fn ends_with_extension(path: &str, a: char, b: char, c: char, ua: char, ub: char, uc: char) -> (r:
    bool)
    requires
        ua == upper(a),
        ub == upper(b),
        uc == upper(c),
    ensures
        r == has_extension(path@, a, b, c),
{
    let p = chars_of(path);
    let n = p.len();
    n >= 4 && p[n - 4] == '.' && (p[n - 3] == a || p[n - 3] == ua) && (p[n - 2] == b || p[n - 2]
        == ub) && (p[n - 1] == c || p[n - 1] == uc)
}

/// Whether `path` names a program: it ends with `.exe`, in any case.
pub fn is_exe(path: &str) -> (r: bool)
    ensures
        r == has_extension(path@, 'e', 'x', 'e'),
{
    ends_with_extension(path, 'e', 'x', 'e', 'E', 'X', 'E')
}

/// Whether `path` names an alias text: it ends with `.txt`, in any case.
pub fn is_txt(path: &str) -> (r: bool)
    ensures
        r == has_extension(path@, 't', 'x', 't'),
{
    ends_with_extension(path, 't', 'x', 't', 'T', 'X', 'T')
}

} // verus!

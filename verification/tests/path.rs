use alias_exe::alias::{
    alias_exe, alias_txt, editor_not_found, link_name, link_target, not_found, validate,
};
use alias_exe::failure::FailureKind;
use alias_exe::path::{cfg_list_path, cfg_path, home_path, is_exe, is_txt, HomeEnv, LISTDIR};

fn env(userprofile: Option<&str>, homedrive: Option<&str>, homepath: Option<&str>) -> HomeEnv {
    HomeEnv {
        userprofile: userprofile.map(|s| s.to_string()),
        homedrive: homedrive.map(|s| s.to_string()),
        homepath: homepath.map(|s| s.to_string()),
    }
}

#[test]
fn userprofile_is_the_home() {
    let e = env(Some("C:\\Users\\me"), Some("D:"), Some("\\other"));
    assert_eq!(home_path(&e).unwrap(), "C:\\Users\\me");
}

#[test]
fn drive_and_path_are_the_home_without_userprofile() {
    let e = env(None, Some("D:"), Some("\\home\\me"));
    assert_eq!(home_path(&e).unwrap(), "D:\\home\\me");
}

#[test]
fn no_home_without_the_variables() {
    for e in [env(None, None, None), env(None, Some("D:"), None), env(None, None, Some("\\x"))] {
        let failure = home_path(&e).unwrap_err();
        assert_eq!(failure.kind, FailureKind::Setup);
        assert_eq!(
            failure.render("[", "]"),
            "[failed]: home directory environment variables not found(%USERPROFILE% or %HOMEDRIVE% + %HOMEPATH%)"
        );
        assert!(cfg_path(&e).is_err());
        assert!(cfg_list_path(&e).is_err());
    }
}

#[test]
fn configuration_directories() {
    let e = env(Some("C:\\Users\\me"), None, None);
    assert_eq!(cfg_path(&e).unwrap(), "C:\\Users\\me\\.alias-exe");
    assert_eq!(cfg_list_path(&e).unwrap(), "C:\\Users\\me\\.alias-exe\\./list");
    assert_eq!(LISTDIR, "./list");
}

#[test]
fn extensions_in_any_case() {
    assert!(is_exe("ls.exe"));
    assert!(is_exe("dir/LS.EXE"));
    assert!(is_exe("x.eXe"));
    assert!(is_exe(".exe"));
    assert!(!is_exe("exe"));
    assert!(!is_exe("ls.exe "));
    assert!(!is_exe("ls.txt"));
    assert!(!is_exe("lsexe"));
    assert!(!is_exe(""));
    assert!(is_txt("ls.txt"));
    assert!(is_txt("ls.TxT"));
    assert!(!is_txt("ls.exe"));
    assert!(!is_txt("ls.txt.bak"));
}

#[test]
fn alias_files() {
    assert_eq!(alias_txt("C:\\cfg\\./list", "ll"), "C:\\cfg\\./list/ll.txt");
    assert_eq!(alias_exe("ll"), "./list/ll.exe");
    assert_eq!(link_name("ll"), "ll.exe");
    assert_eq!(link_target("alias.exe"), "..\\alias.exe");
}

#[test]
fn alias_may_not_bear_the_name_of_the_program() {
    assert!(validate("ll", "alias").is_ok());
    let failure = validate("alias", "alias").unwrap_err();
    assert_eq!(failure.kind, FailureKind::Setup);
    assert_eq!(failure.render("[", "]"), "[failed]: original name is invalid: [alias]");
}

#[test]
fn failures_of_the_alias_files() {
    assert_eq!(not_found("ll").render("[", "]"), "[failed]: ll.exe is not found");
    assert_eq!(
        editor_not_found("vim", "no such file").render("[", "]"),
        "[failed]: Not found vim\n\nno such file"
    );
}

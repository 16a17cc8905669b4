use aur_install::args::Arg;
use aur_install::args::Args;
use aur_install::config::Config;
use aur_install::package::RepoPackage;
use aur_install::pacman::asdeps;
use aur_install::pacman::asexp;
use aur_install::pacman::do_install;
use aur_install::pacman::early_pacman;
use aur_install::pacman::early_refresh;
use aur_install::pacman::marked;
use aur_install::pacman::repo_install;
use aur_install::style::Colors;
use aur_install::style::Style;

fn texts(items: &[&str]) -> Vec<String> {
    items.iter().map(|s| s.to_string()).collect()
}

fn args(op: &str, keys: &[&str], targets: &[&str]) -> Args {
    let args = keys.iter().map(|k| Arg { key: k.to_string(), value: None }).collect();
    Args { op: op.to_string(), args, targets: texts(targets) }
}

fn keys(args: &Args) -> Vec<String> {
    args.args
        .iter()
        .map(|a| match &a.value {
            Some(value) => format!("{}={}", a.key, value),
            None => a.key.clone(),
        })
        .collect()
}

fn config(user: Args, globals: Args) -> Config {
    let plain = Style::new();
    Config {
        color: Colors { base: plain, action: plain, bold: plain, error: plain, warning: plain },
        cols: None,
        args: user,
        globals,
        targets: vec![],
        op: "sync".to_string(),
        mode: "any".to_string(),
        provides: true,
        combined_upgrade: true,
        sudo_loop: false,
        no_confirm: false,
        use_ask: false,
        devel: false,
        batch_install: false,
        clean_after: false,
        pgp_fetch: false,
        rebuild: "no".to_string(),
        remove_make: "no".to_string(),
        redownload: "no".to_string(),
        mflags: vec![],
        asp_bin: "asp".to_string(),
        aur_url: "https://aur.archlinux.org".to_string(),
        arch: "x86_64".to_string(),
        ignore_pkg: vec![],
    }
}

fn plain_config(globals: &[&str]) -> Config {
    config(args("sync", &["y", "u"], &["t"]), args("sync", globals, &["g"]))
}

#[test]
fn options_are_counted_under_both_names() {
    let a = args("sync", &["d", "u", "nodeps", "d"], &[]);
    assert_eq!(a.count("d", "nodeps"), 3);
    assert_eq!(a.count("u", "sysupgrade"), 1);
    assert_eq!(a.count("y", "refresh"), 0);
    assert!(a.has_arg("d", "nodeps"));
    assert!(a.has_arg("x", "u"));
    assert!(!a.has_arg("y", "refresh"));
}

#[test]
fn removing_an_option() {
    let mut a = args("sync", &["d", "u", "d", "nodeps"], &["t"]);
    a.remove("d");
    assert_eq!(keys(&a), vec!["u", "nodeps"]);
    assert_eq!(a.count("u", "u"), 1);
    assert_eq!(a.targets, vec!["t"]);
    assert_eq!(a.op, "sync");
}

#[test]
fn adding_options() {
    let mut a = args("sync", &[], &[]);
    a.op("query");
    a.arg("q");
    a.push_value("ask", "4");
    assert_eq!(a.op, "query");
    assert_eq!(keys(&a), vec!["q", "ask=4"]);
}

#[test]
fn refresh_call_has_no_targets() {
    let call = early_refresh(&plain_config(&["noconfirm"]));
    assert_eq!(keys(&call), vec!["noconfirm", "y"]);
    assert!(call.targets.is_empty());
}

#[test]
fn early_call_has_the_repo_targets() {
    let call = early_pacman(&plain_config(&[]), &texts(&["core/a", "b"]));
    assert_eq!(keys(&call), vec!["y", "u"]);
    assert_eq!(call.targets, vec!["core/a", "b"]);
}

#[test]
fn marking_packages() {
    let c = plain_config(&["noconfirm"]);
    let call = asdeps(&c, &texts(&["a", "b"])).unwrap();
    assert_eq!(call.op, "database");
    assert_eq!(keys(&call), vec!["noconfirm", "asdeps"]);
    assert_eq!(call.targets, vec!["g", "a", "b"]);
    let call = asexp(&c, &texts(&["c"])).unwrap();
    assert_eq!(keys(&call), vec!["noconfirm", "asexplicit"]);
    assert!(asdeps(&c, &vec![]).is_none());
    assert!(asexp(&c, &vec![]).is_none());
}

#[test]
fn installing_files() {
    let call = do_install(&plain_config(&["d", "nodeps"]), &texts(&["/x", "/y"]), false).unwrap();
    assert_eq!(call.op, "upgrade");
    assert_eq!(keys(&call), vec!["d", "nodeps", "d", "d", "noconfirm"]);
    assert_eq!(call.count("d", "nodeps"), 4);
    assert_eq!(call.targets, vec!["/x", "/y"]);
}

#[test]
fn empty_queue_needs_no_call() {
    assert!(do_install(&plain_config(&[]), &vec![], true).is_none());
}

#[test]
fn conflict_is_left_to_the_user() {
    let call = do_install(&plain_config(&["ask"]), &texts(&["/x"]), true).unwrap();
    assert_eq!(keys(&call), vec!["ask"]);
}

#[test]
fn conflict_is_answered_beforehand() {
    let mut c = plain_config(&["v"]);
    c.use_ask = true;
    let call = do_install(&c, &texts(&["/x"]), true).unwrap();
    assert_eq!(keys(&call), vec!["v", "ask=4"]);
}

#[test]
fn answers_are_added_to() {
    let cases = [("1", "5"), ("4", "4"), ("-8", "-4"), ("x", "4"), ("", "4"), ("99999999999", "4")];
    for (given, expected) in cases {
        let mut c = plain_config(&[]);
        c.use_ask = true;
        c.globals.push_value("ask", given);
        c.globals.push_value("ask", "16");
        let call = do_install(&c, &texts(&["/x"]), true).unwrap();
        assert_eq!(keys(&call), vec![format!("ask={}", expected), "ask=16".to_string()]);
    }
}

#[test]
fn answer_without_a_value() {
    let mut c = plain_config(&["ask"]);
    c.use_ask = true;
    let call = do_install(&c, &texts(&["/x"]), true).unwrap();
    assert_eq!(keys(&call), vec!["ask=4"]);
}

fn repo(db: &str, name: &str, target: bool) -> RepoPackage {
    RepoPackage {
        db: db.to_string(),
        name: name.to_string(),
        version: "1-1".to_string(),
        make: false,
        target,
    }
}

#[test]
fn repo_packages_are_installed_and_marked() {
    let user = args("sync", &["d", "y", "u", "e", "needed"], &["t"]);
    let c = config(user, args("sync", &[], &[]));
    let pkgs = vec![repo("core", "a", true), repo("extra", "b", false), repo("core", "c", true)];
    let todo = repo_install(&c, &pkgs, &vec![false, false, true]).unwrap();
    assert_eq!(keys(&todo.args), vec!["u", "needed"]);
    assert_eq!(todo.args.targets, vec!["core/a", "extra/b", "core/c"]);
    assert_eq!(todo.exp, vec!["a"]);
    assert_eq!(todo.deps, vec!["b"]);
}

#[test]
fn repo_packages_alone_upgrade_nothing_else() {
    let user = args("sync", &["u"], &[]);
    let mut c = config(user, args("sync", &[], &[]));
    c.combined_upgrade = false;
    let todo = repo_install(&c, &vec![repo("core", "a", true)], &vec![false]).unwrap();
    assert!(todo.args.args.is_empty());
    c.combined_upgrade = true;
    c.mode = "aur".to_string();
    let todo = repo_install(&c, &vec![repo("core", "a", true)], &vec![false]).unwrap();
    assert!(todo.args.args.is_empty());
}

#[test]
fn no_repo_packages() {
    assert!(repo_install(&plain_config(&[]), &vec![], &vec![]).is_none());
}

#[test]
fn failed_mark_tells_what_was_said() {
    assert!(marked(true, &b"warning".to_vec()).is_ok());
    match marked(false, &b"error: no such package".to_vec()) {
        Err(e) => assert_eq!(e.text(), "error: no such package"),
        Ok(()) => panic!("marked"),
    }
    match marked(false, &vec![0x61, 0xff, 0x62]) {
        Err(e) => assert_eq!(e.text(), "a\u{fffd}b"),
        Ok(()) => panic!("marked"),
    }
}

use aur_install::args::Arg;
use aur_install::args::Args;
use aur_install::building::build_install_pkgbuilds;
use aur_install::building::is_devel;
use aur_install::building::Build;
use aur_install::building::Stage;
use aur_install::config::Config;
use aur_install::package::AurPackage;
use aur_install::package::BuildBase;
use aur_install::package::BuildPackage;
use aur_install::package_list::parse_paths;
use aur_install::package_list::PackageList;
use aur_install::style::Colors;
use aur_install::style::Style;

fn config() -> Config {
    let plain = Style::new();
    let args = Args { op: "sync".to_string(), args: vec![], targets: vec![] };
    Config {
        color: Colors { base: plain, action: plain, bold: plain, error: plain, warning: plain },
        cols: None,
        args: args.clone(),
        globals: args,
        targets: vec![],
        op: "sync".to_string(),
        mode: "any".to_string(),
        provides: true,
        combined_upgrade: true,
        sudo_loop: false,
        no_confirm: false,
        use_ask: false,
        devel: false,
        batch_install: false,
        clean_after: false,
        pgp_fetch: false,
        rebuild: "no".to_string(),
        remove_make: "no".to_string(),
        redownload: "no".to_string(),
        mflags: vec![],
        asp_bin: "asp".to_string(),
        aur_url: "https://aur.archlinux.org".to_string(),
        arch: "x86_64".to_string(),
        ignore_pkg: vec![],
    }
}

fn texts(items: &[&str]) -> Vec<String> {
    items.iter().map(|s| s.to_string()).collect()
}

fn pkg(name: &str, base: &str, target: bool) -> BuildPackage {
    BuildPackage {
        pkg: AurPackage {
            name: name.to_string(),
            package_base: base.to_string(),
            version: "1-1".to_string(),
            maintainer: None,
            out_of_date: None,
            depends: texts(&["d1"]),
            make_depends: texts(&["d2"]),
            check_depends: vec![],
        },
        make: false,
        target,
    }
}

fn base(name: &str, pkgs: &[(&str, bool)]) -> BuildBase {
    BuildBase { pkgs: pkgs.iter().map(|(p, t)| pkg(p, name, *t)).collect() }
}

fn list(names: &[&str]) -> PackageList {
    let paths: Vec<String> = names.iter().map(|n| format!("/p/{}-1-1-any.x", n)).collect();
    parse_paths(&paths).ok().unwrap()
}

/// Builds the base whose turn it is, nothing of it being there yet.
fn build_fresh(run: &mut Build, names: &[&str]) {
    assert_eq!(run.stage(), Stage::List);
    run.listed(list(names));
    run.probed(&vec![false; names.len()]);
    assert_eq!(run.stage(), Stage::Sources);
    run.done();
    assert_eq!(run.stage(), Stage::Bump);
    run.done();
    assert_eq!(run.stage(), Stage::List);
    run.listed(list(names));
    run.probed(&vec![false; names.len()]);
    assert_eq!(run.stage(), Stage::Make);
    run.done();
    assert_eq!(run.stage(), Stage::Installed);
}

#[test]
fn devel_packages_by_their_ending() {
    for name in ["a-git", "a-cvs", "a-svn", "a-bzr", "a-darcs"] {
        assert!(is_devel(&base("a", &[("x", true), (name, true)])));
    }
    for name in ["a", "git", "a-git2", "a-hg"] {
        assert!(!is_devel(&base("a-git", &[(name, true)])));
    }
}

#[test]
fn texts_of_bases() {
    assert_eq!(base("a", &[("a", true)]).text(), "a-1-1");
    assert_eq!(base("a", &[("x", true)]).text(), "a-1-1 (x)");
    assert_eq!(base("a", &[("a", true), ("b", true), ("c", true)]).text(), "a-1-1 (a b c)");
}

#[test]
fn nothing_to_build() {
    let c = config();
    let build = vec![];
    let run = build_install_pkgbuilds(&c, &build, vec![]);
    assert_eq!(run.stage(), Stage::Done);
}

#[test]
fn one_base_from_start_to_end() {
    let c = config();
    let build = vec![base("b", &[("p", true), ("q", false)])];
    let mut run = build_install_pkgbuilds(&c, &build, vec![]);
    assert_eq!(run.notice().unwrap(), "b-1-1 (p q): parsing pkg list...");
    assert_eq!(run.makepkg(), vec!["--packagelist"]);
    run.listed(list(&["p", "q"]));
    assert_eq!(run.stage(), Stage::Probe);
    let files: Vec<String> = run.files().into_iter().map(|f| f.unwrap()).collect();
    assert_eq!(files, vec!["/p/p-1-1-any.x", "/p/q-1-1-any.x"]);
    assert!(run.can_probe(&vec![true, false]));
    run.probed(&vec![true, false]);
    assert_eq!(run.stage(), Stage::Sources);
    assert_eq!(run.makepkg(), vec!["--verifysource", "-ACcf"]);
    let failure = run.failure().unwrap().text();
    assert_eq!(failure, "failed to download sources for 'b-1-1 (p q)'");
    run.done();
    assert_eq!(run.makepkg(), vec!["-ofCA"]);
    assert_eq!(run.failure().unwrap().text(), "failed to build 'b-1-1 (p q)'");
    run.done();
    run.listed(list(&["p", "q"]));
    run.probed(&vec![false, false]);
    assert_eq!(run.makepkg(), vec!["-cfeA", "--noconfirm", "--noprepare", "--holdver"]);
    assert_eq!(run.failure().unwrap().text(), "failed to build 'b-1-1 (p q)'");
    run.done();
    assert!(run.notice().is_none());
    let (told, result) = run.installed(&vec![None, None]);
    assert!(told.is_empty());
    assert!(result.is_ok());
    assert_eq!(run.stage(), Stage::Record);
    run.done();
    assert_eq!(run.stage(), Stage::Install);
    let call = run.install_call();
    assert_eq!(call.op, "upgrade");
    assert_eq!(call.targets, vec!["/p/p-1-1-any.x", "/p/q-1-1-any.x"]);
    assert!(call.has_arg("noconfirm", "noconfirm"));
    run.done();
    assert_eq!(run.stage(), Stage::AsDeps);
    assert_eq!(run.mark_call().targets, vec!["q"]);
    assert!(run.mark_call().has_arg("asdeps", "asdeps"));
    run.done();
    assert_eq!(run.stage(), Stage::AsExplicit);
    assert_eq!(run.mark_call().targets, vec!["p"]);
    run.done();
    assert_eq!(run.stage(), Stage::Done);
}

#[test]
fn present_files_are_not_built() {
    let c = config();
    let build = vec![base("b", &[("b", true)])];
    let mut run = build_install_pkgbuilds(&c, &build, vec![]);
    run.listed(list(&["b"]));
    run.probed(&vec![true]);
    assert_eq!(run.stage(), Stage::Installed);
    assert_eq!(run.notice().unwrap(), "b-1-1 is up to date -- skipping build");
    let _ = run.installed(&vec![Some("0-1".to_string())]);
    run.done();
    assert_eq!(run.stage(), Stage::Install);
    run.done();
    assert_eq!(run.stage(), Stage::Done);
}

#[test]
fn rebuilding_on_request() {
    let mut c = config();
    let targets = vec![base("b", &[("b", true)])];
    let others = vec![base("b", &[("b", false)])];
    for (rebuild, build, stage) in [
        ("yes", &targets, Stage::Sources),
        ("yes", &others, Stage::Installed),
        ("all", &others, Stage::Sources),
        ("no", &targets, Stage::Installed),
    ] {
        c.rebuild = rebuild.to_string();
        let mut run = build_install_pkgbuilds(&c, build, vec![]);
        run.listed(list(&["b"]));
        run.probed(&vec![true]);
        assert_eq!(run.stage(), stage);
    }
}

#[test]
fn bumped_base_may_be_there_already() {
    let c = config();
    let build = vec![base("b-git", &[("b-git", true)])];
    let mut run = build_install_pkgbuilds(&c, &build, vec![]);
    assert_eq!(run.stage(), Stage::Sources);
    run.done();
    run.done();
    run.listed(list(&["b-git"]));
    run.probed(&vec![true]);
    assert_eq!(run.stage(), Stage::Installed);
    assert_eq!(run.notice().unwrap(), "b-git-1-1 is up to date -- skipping build");
}

#[test]
fn needed_skips_what_is_installed() {
    let mut c = config();
    c.args.args.push(Arg { key: "needed".to_string(), value: None });
    let build = vec![base("b", &[("p", true), ("q", true)])];
    let mut run = build_install_pkgbuilds(&c, &build, vec![]);
    build_fresh(&mut run, &["p", "q"]);
    let (told, result) = run.installed(&vec![Some("1-1".to_string()), Some("0-9".to_string())]);
    assert!(result.is_ok());
    assert_eq!(told, vec!["b-1-1 is up to date -- skipping install"]);
    run.done();
    assert_eq!(run.install_call().targets, vec!["/p/q-1-1-any.x"]);
    run.done();
    assert_eq!(run.stage(), Stage::Done);
}

#[test]
fn without_needed_nothing_is_skipped() {
    let c = config();
    let build = vec![base("b", &[("p", true)])];
    let mut run = build_install_pkgbuilds(&c, &build, vec![]);
    build_fresh(&mut run, &["p"]);
    let (told, _) = run.installed(&vec![Some("1-1".to_string())]);
    assert!(told.is_empty());
    run.done();
    assert_eq!(run.stage(), Stage::Install);
}

#[test]
fn unlisted_package_is_an_error() {
    let c = config();
    let build = vec![base("b", &[("p", true), ("q", true)])];
    let mut run = build_install_pkgbuilds(&c, &build, vec![]);
    run.listed(list(&["p"]));
    assert!(run.files()[1].is_none());
    assert!(run.can_probe(&vec![false, true]));
    assert!(!run.can_probe(&vec![true, true]));
    run.probed(&vec![false, true]);
    run.done();
    run.done();
    run.listed(list(&["p"]));
    run.probed(&vec![false, true]);
    run.done();
    match run.installed(&vec![None, None]).1 {
        Err(e) => assert_eq!(
            e.text(),
            "could not find package 'q' in package list for 'b-1-1 (p q)'"
        ),
        Ok(()) => panic!("queued"),
    }
    assert_eq!(run.stage(), Stage::Failed);
}

#[test]
fn each_base_is_installed_before_the_next() {
    let c = config();
    let build = vec![base("a", &[("a", true)]), base("b", &[("b", true)])];
    let mut run = build_install_pkgbuilds(&c, &build, vec![]);
    build_fresh(&mut run, &["a"]);
    let _ = run.installed(&vec![None]);
    run.done();
    assert_eq!(run.stage(), Stage::Install);
    assert_eq!(run.install_call().targets, vec!["/p/a-1-1-any.x"]);
    run.done();
    assert_eq!(run.stage(), Stage::AsExplicit);
    run.done();
    assert_eq!(run.base().package_base(), "b");
    build_fresh(&mut run, &["b"]);
}

#[test]
fn batches_wait_for_dependencies() {
    let mut c = config();
    c.batch_install = true;
    let build = vec![base("a", &[("a", true)]), base("b", &[("b", true)]), base("c", &[("c", true)])];
    let mut run = build_install_pkgbuilds(&c, &build, vec![]);
    assert_eq!(run.stage(), Stage::Dependencies);
    assert_eq!(run.wanted(), vec![vec!["d1", "d2"]]);
    run.dependencies(&vec![vec![false, true]]);
    build_fresh(&mut run, &["a"]);
    let _ = run.installed(&vec![None]);
    run.done();
    assert_eq!(run.stage(), Stage::Dependencies);
    run.dependencies(&vec![vec![true, true]]);
    build_fresh(&mut run, &["b"]);
    let _ = run.installed(&vec![None]);
    run.done();
    run.dependencies(&vec![vec![true, false]]);
    assert_eq!(run.stage(), Stage::Install);
    assert_eq!(run.install_call().targets, vec!["/p/a-1-1-any.x", "/p/b-1-1-any.x"]);
    run.done();
    assert_eq!(run.mark_call().targets, vec!["a", "b"]);
    run.done();
    build_fresh(&mut run, &["c"]);
}

#[test]
fn last_package_decides_about_the_batch() {
    let mut c = config();
    c.batch_install = true;
    let build = vec![base("a", &[("a", true)]), base("b", &[("p", true), ("q", true)])];
    for (found, stage) in [
        (vec![vec![false], vec![true]], Stage::List),
        (vec![vec![true], vec![false]], Stage::Install),
        (vec![vec![false], vec![]], Stage::List),
    ] {
        let mut run = build_install_pkgbuilds(&c, &build, vec![]);
        run.dependencies(&vec![vec![true]]);
        build_fresh(&mut run, &["a"]);
        let _ = run.installed(&vec![None]);
        run.done();
        run.dependencies(&found);
        assert_eq!(run.stage(), stage);
    }
}

#[test]
fn conflicts_are_confirmed() {
    let c = config();
    let build = vec![base("a", &[("p", true), ("q", true)]), base("b", &[("b", true)])];
    let mut run = build_install_pkgbuilds(&c, &build, texts(&["q"]));
    build_fresh(&mut run, &["p", "q"]);
    let _ = run.installed(&vec![None, None]);
    run.done();
    assert!(!run.install_call().has_arg("noconfirm", "noconfirm"));
    run.done();
    run.done();
    build_fresh(&mut run, &["b"]);
    let _ = run.installed(&vec![None]);
    run.done();
    assert!(run.install_call().has_arg("noconfirm", "noconfirm"));
}

#[test]
fn devel_info_is_fetched_and_saved() {
    let mut c = config();
    c.devel = true;
    let build = vec![base("a", &[("a", true)])];
    let mut run = build_install_pkgbuilds(&c, &build, vec![]);
    assert_eq!(run.stage(), Stage::Devel);
    assert_eq!(run.notice().unwrap(), "Fetching devel info...");
    run.done();
    build_fresh(&mut run, &["a"]);
    let _ = run.installed(&vec![None]);
    run.done();
    assert_eq!(run.stage(), Stage::Install);
    run.done();
    assert_eq!(run.stage(), Stage::SaveDevel);
    run.done();
    assert_eq!(run.stage(), Stage::AsExplicit);
}

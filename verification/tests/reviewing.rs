use aur_install::args::Arg;
use aur_install::args::Args;
use aur_install::config::Config;
use aur_install::package::Actions;
use aur_install::package::AurPackage;
use aur_install::package::BuildBase;
use aur_install::package::BuildPackage;
use aur_install::package::Conflict;
use aur_install::package::RepoPackage;
use aur_install::review::install_actions;
use aur_install::review::Stage;
use aur_install::srcinfo::SrcInfo;
use aur_install::srcinfo::SrcPackage;
use aur_install::style::Colors;
use aur_install::style::Style;

fn config() -> Config {
    let plain = Style::new();
    let args = Args {
        op: "sync".to_string(),
        args: vec![Arg { key: "u".to_string(), value: None }],
        targets: vec![],
    };
    Config {
        color: Colors { base: plain, action: plain, bold: plain, error: plain, warning: plain },
        cols: None,
        args: args.clone(),
        globals: args,
        targets: vec![],
        op: "sync".to_string(),
        mode: "any".to_string(),
        provides: true,
        combined_upgrade: true,
        sudo_loop: false,
        no_confirm: false,
        use_ask: false,
        devel: false,
        batch_install: false,
        clean_after: false,
        pgp_fetch: true,
        rebuild: "no".to_string(),
        remove_make: "no".to_string(),
        redownload: "no".to_string(),
        mflags: vec![],
        asp_bin: "asp".to_string(),
        aur_url: "https://aur.archlinux.org".to_string(),
        arch: "x86_64".to_string(),
        ignore_pkg: vec![],
    }
}

fn build(name: &str, base: &str) -> BuildPackage {
    BuildPackage {
        pkg: AurPackage {
            name: name.to_string(),
            package_base: base.to_string(),
            version: "2-1".to_string(),
            maintainer: None,
            out_of_date: None,
            depends: vec![],
            make_depends: vec![],
            check_depends: vec![],
        },
        make: false,
        target: true,
    }
}

fn actions(bases: &[&str]) -> Actions {
    Actions {
        build: bases.iter().map(|b| BuildBase { pkgs: vec![build(b, b)] }).collect(),
        install: vec![],
        missing: vec![],
        unneeded: vec![],
        duplicates: vec![],
    }
}

fn file(base: &str, arch: &str) -> Option<Vec<u8>> {
    let text = format!(
        "pkgbase = {0}\n\tpkgver = 1.0\n\tpkgrel = 2\n\tepoch = 3\n\tarch = {1}\n\n\
         pkgname = {0}\n\npkgname = {0}-doc\n\tarch = any\n",
        base, arch
    );
    Some(text.into_bytes())
}

fn info(base: &str, arch: &[&str]) -> SrcInfo {
    SrcInfo {
        pkgbase: base.to_string(),
        epoch: None,
        pkgver: "1".to_string(),
        pkgrel: "1".to_string(),
        source: vec![],
        valid_pgp_keys: vec![],
        pkgs: vec![SrcPackage {
            pkgname: base.to_string(),
            arch: arch.iter().map(|a| a.to_string()).collect(),
        }],
    }
}

#[test]
fn versions_with_and_without_epoch() {
    let mut i = info("a", &[]);
    assert_eq!(i.version(), "1-1");
    i.epoch = Some("2".to_string());
    assert_eq!(i.version(), "2:1-1");
}

#[test]
fn incompatible_packages() {
    assert!(info("a", &["any"]).incompatible("x86_64").is_empty());
    assert!(info("a", &["i686", "x86_64"]).incompatible("x86_64").is_empty());
    assert_eq!(info("a", &["i686"]).incompatible("x86_64"), vec!["a"]);
    assert_eq!(info("a", &[]).incompatible("x86_64"), vec!["a"]);
}

#[test]
fn no_review_no_install() {
    let (c, a) = (config(), actions(&["a"]));
    let mut run = install_actions(&c, &a, &vec![], &vec![]);
    assert_eq!(run.stage(), Stage::Review);
    assert_eq!(run.question(), "Proceed to review?");
    assert!(run.notice().is_none());
    run.answered(false);
    assert_eq!(run.stage(), Stage::Declined);
    assert_eq!(run.code(), 1);
}

#[test]
fn whole_review() {
    let (c, a) = (config(), actions(&["a", "b"]));
    let mut run = install_actions(&c, &a, &vec![], &vec![]);
    run.answered(true);
    assert_eq!(run.stage(), Stage::Srcinfo);
    assert_eq!(run.base().package_base(), "a");
    assert!(run.read(&file("a", "x86_64")).is_ok());
    assert_eq!(run.base().package_base(), "b");
    assert!(run.read(&None).is_ok());
    assert_eq!(run.stage(), Stage::Versions);
    assert_eq!(
        run.version_pairs(),
        vec![Some(("2-1".to_string(), "3:1.0-2".to_string())), None]
    );
    let download = run.compared(&vec![false, false]);
    assert_eq!(download.names(), vec!["b"]);
    assert_eq!(run.stage(), Stage::Download);
    run.done();
    assert_eq!(run.stage(), Stage::NewSrcinfo);
    assert_eq!(run.base().package_base(), "b");
    assert!(run.read(&file("b", "x86_64")).is_ok());
    assert_eq!(run.stage(), Stage::View);
    assert_eq!(run.build_names(), vec!["a", "b"]);
    for base in &run.bases().bases {
        assert!(run.srcinfos().contains_key(base.package_base()));
    }
    assert_eq!(run.srcinfos().get("b").unwrap().pkgs[1].pkgname, "b-doc");
    assert!(run.viewed(true).is_ok());
    assert_eq!(run.stage(), Stage::Proceed);
    assert_eq!(run.question(), "Proceed with installation?");
    run.answered(true);
    assert_eq!(run.stage(), Stage::Seen);
    run.done();
    assert_eq!(run.stage(), Stage::Keys);
    run.done();
    assert_eq!(run.stage(), Stage::Build);
    run.done();
    assert_eq!(run.stage(), Stage::Done);
    assert_eq!(run.code(), 0);
}

#[test]
fn everything_known_beforehand() {
    let (c, a) = (config(), actions(&["a"]));
    let mut run = install_actions(&c, &a, &vec![], &vec![]);
    run.answered(true);
    assert!(run.parsed(Some(Ok(info("a", &["any"])))).is_ok());
    let _ = run.compared(&vec![true]);
    run.done();
    assert_eq!(run.stage(), Stage::View);
}

#[test]
fn first_pass_goes_by_the_name_in_the_file() {
    let (c, a) = (config(), actions(&["a", "b"]));
    let mut run = install_actions(&c, &a, &vec![], &vec![]);
    run.answered(true);
    assert!(run.parsed(Some(Ok(info("b", &["any"])))).is_ok());
    assert!(run.parsed(None).is_ok());
    assert!(run.version_pairs()[0].is_none());
    assert!(run.version_pairs()[1].is_some());
    let _ = run.compared(&vec![false, false]);
    run.done();
    assert_eq!(run.stage(), Stage::NewSrcinfo);
    assert_eq!(run.base().package_base(), "a");
    assert!(run.parsed(Some(Ok(info("other", &["any"])))).is_ok());
    assert_eq!(run.stage(), Stage::View);
    assert!(run.srcinfos().contains_key("a"));
    assert!(!run.srcinfos().contains_key("other"));
}

#[test]
fn unreadable_srcinfo_is_an_error() {
    let (c, a) = (config(), actions(&["a"]));
    let mut run = install_actions(&c, &a, &vec![], &vec![]);
    run.answered(true);
    match run.read(&Some(b"pkgbase = a\nnonsense\n".to_vec())) {
        Err(e) => assert_eq!(e.text(), "failed to parse srcinfo for 'a'"),
        Ok(()) => panic!("read"),
    }
    assert_eq!(run.stage(), Stage::Failed);
}

#[test]
fn missing_srcinfo_is_an_error_after_the_download() {
    let (c, a) = (config(), actions(&["a"]));
    let mut run = install_actions(&c, &a, &vec![], &vec![]);
    run.answered(true);
    assert!(run.read(&None).is_ok());
    let _ = run.compared(&vec![false]);
    run.done();
    match run.read(&None) {
        Err(e) => assert_eq!(e.text(), "could not find .SRINFO for 'a'"),
        Ok(()) => panic!("read"),
    }
    assert_eq!(run.stage(), Stage::Failed);
}

#[test]
fn failing_file_manager_is_an_error() {
    let (c, a) = (config(), actions(&["a"]));
    let mut run = install_actions(&c, &a, &vec![], &vec![]);
    run.answered(true);
    assert!(run.read(&file("a", "any")).is_ok());
    let _ = run.compared(&vec![false]);
    run.done();
    match run.viewed(false) {
        Err(e) => assert_eq!(e.text(), "file manager did not execute successfully"),
        Ok(()) => panic!("viewed"),
    }
    assert_eq!(run.stage(), Stage::Failed);
}

#[test]
fn repo_packages_skip_the_question() {
    let mut c = config();
    c.pgp_fetch = false;
    let mut a = actions(&["a"]);
    a.install = vec![RepoPackage {
        db: "core".to_string(),
        name: "r".to_string(),
        version: "1-1".to_string(),
        make: false,
        target: false,
    }];
    let mut run = install_actions(&c, &a, &vec![], &vec![]);
    run.answered(true);
    assert!(run.read(&file("a", "x86_64")).is_ok());
    let _ = run.compared(&vec![false]);
    run.done();
    assert!(run.viewed(true).is_ok());
    assert_eq!(run.stage(), Stage::Seen);
    run.done();
    assert_eq!(run.stage(), Stage::Repo);
    run.repo_known(&vec![false]);
    assert_eq!(run.stage(), Stage::RepoInstall);
    assert_eq!(run.repo_call().targets, vec!["core/r"]);
    run.done();
    assert_eq!(run.stage(), Stage::RepoDeps);
    assert_eq!(run.mark_call().targets, vec!["r"]);
    assert!(run.mark_call().has_arg("asdeps", "asdeps"));
    run.done();
    assert_eq!(run.stage(), Stage::Build);
}

fn repo(name: &str, target: bool) -> RepoPackage {
    RepoPackage {
        db: "core".to_string(),
        name: name.to_string(),
        version: "1-1".to_string(),
        make: false,
        target,
    }
}

#[test]
fn repo_packages_are_installed_before_they_are_marked() {
    let mut c = config();
    c.pgp_fetch = false;
    let mut a = actions(&[]);
    a.install = vec![repo("x", true), repo("y", false), repo("z", true)];
    for (installed, stages) in [
        (vec![false, false, true], vec![Stage::RepoDeps, Stage::RepoExplicit]),
        (vec![false, true, false], vec![Stage::RepoExplicit]),
        (vec![true, true, true], vec![]),
    ] {
        let mut run = install_actions(&c, &a, &vec![], &vec![]);
        run.answered(true);
        let _ = run.compared(&vec![]);
        run.done();
        assert!(run.viewed(true).is_ok());
        run.done();
        run.repo_known(&installed);
        assert_eq!(run.stage(), Stage::RepoInstall);
        assert_eq!(run.repo_call().targets, vec!["core/x", "core/y", "core/z"]);
        run.done();
        for stage in stages {
            assert_eq!(run.stage(), stage);
            if stage == Stage::RepoDeps {
                assert_eq!(run.mark_call().targets, vec!["y"]);
            } else {
                assert!(run.mark_call().has_arg("asexplicit", "asexplicit"));
            }
            run.done();
        }
        assert_eq!(run.stage(), Stage::Build);
    }
}

#[test]
fn incompatible_packages_are_asked_about() {
    let (c, a) = (config(), actions(&["a", "b"]));
    let mut run = install_actions(&c, &a, &vec![], &vec![]);
    run.answered(true);
    assert!(run.read(&file("a", "i686")).is_ok());
    assert!(run.read(&file("b", "armv7h")).is_ok());
    let _ = run.compared(&vec![false, false]);
    run.done();
    assert!(run.viewed(true).is_ok());
    run.answered(true);
    run.done();
    assert_eq!(run.stage(), Stage::Incompatible);
    assert_eq!(
        run.notice().unwrap(),
        "The following packages are not compatible with your architecture:\na\nb\n"
    );
    assert_eq!(run.question(), "Would you like to try build them anyway?");
    run.answered(true);
    assert_eq!(run.stage(), Stage::Keys);
}

#[test]
fn declining_incompatible_packages() {
    let (c, a) = (config(), actions(&["a"]));
    let mut run = install_actions(&c, &a, &vec![], &vec![]);
    run.answered(true);
    assert!(run.read(&file("a", "i686")).is_ok());
    let _ = run.compared(&vec![false]);
    run.done();
    assert!(run.viewed(true).is_ok());
    run.answered(true);
    run.done();
    run.answered(false);
    assert_eq!(run.stage(), Stage::Declined);
    assert_eq!(run.code(), 1);
}

#[test]
fn only_repo_packages() {
    let (c, a) = (config(), actions(&[]));
    let mut run = install_actions(&c, &a, &vec![], &vec![]);
    run.answered(true);
    assert_eq!(run.stage(), Stage::Versions);
    assert_eq!(run.compared(&vec![]).notice.unwrap(), " pkgbuilds up to date");
    run.done();
    assert_eq!(run.stage(), Stage::View);
}

#[test]
fn conflicts_are_kept_for_building() {
    let (c, a) = (config(), actions(&["a"]));
    let outer = vec![Conflict { pkg: "a".to_string(), conflicting: vec![] }];
    let inner = vec![Conflict { pkg: "b".to_string(), conflicting: vec![] }];
    let run = install_actions(&c, &a, &outer, &inner);
    assert_eq!(run.conflicts(), vec!["a", "b"]);
}

#[test]
fn keys_and_sources_are_handed_on() {
    let (c, a) = (config(), actions(&["a"]));
    let mut run = install_actions(&c, &a, &vec![], &vec![]);
    run.answered(true);
    let text = "pkgbase = a\n\tpkgver = 1\n\tpkgrel = 1\n\tarch = x86_64\n\
                \tsource = a.tar.gz\n\tsource = git+https://x/a.git\n\
                \tsource_x86_64 = bin.tar.gz\n\tvalidpgpkeys = AAAA\n\tvalidpgpkeys = BBBB\n\n\
                pkgname = a\n";
    assert!(run.read(&Some(text.as_bytes().to_vec())).is_ok());
    let info = run.srcinfos().get("a").unwrap();
    assert_eq!(info.valid_pgp_keys, vec!["AAAA", "BBBB"]);
    assert_eq!(info.source.len(), 2);
    assert_eq!(info.source[0].arch, None);
    assert_eq!(info.source[0].vec, vec!["a.tar.gz", "git+https://x/a.git"]);
    assert_eq!(info.source[1].arch.as_deref(), Some("x86_64"));
    assert_eq!(info.source[1].vec, vec!["bin.tar.gz"]);
}

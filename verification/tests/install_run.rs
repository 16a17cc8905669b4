use aur_install::args::Arg;
use aur_install::args::Args;
use aur_install::config::Config;
use aur_install::install::install;
use aur_install::install::Install;
use aur_install::install::Stage;
use aur_install::package::Actions;
use aur_install::package::AurPackage;
use aur_install::package::BuildBase;
use aur_install::package::BuildPackage;
use aur_install::package::Conflict;
use aur_install::package::RepoPackage;
use aur_install::style::Colors;
use aur_install::style::Style;

fn texts(items: &[&str]) -> Vec<String> {
    items.iter().map(|s| s.to_string()).collect()
}

fn args(keys: &[&str]) -> Args {
    Args {
        op: "yay".to_string(),
        args: keys.iter().map(|k| Arg { key: k.to_string(), value: None }).collect(),
        targets: vec![],
    }
}

fn config(keys: &[&str]) -> Config {
    let plain = Style::new();
    Config {
        color: Colors { base: plain, action: plain, bold: plain, error: plain, warning: plain },
        cols: None,
        args: args(keys),
        globals: args(&["noconfirm"]),
        targets: vec![],
        op: "sync".to_string(),
        mode: "any".to_string(),
        provides: true,
        combined_upgrade: false,
        sudo_loop: false,
        no_confirm: false,
        use_ask: false,
        devel: false,
        batch_install: false,
        clean_after: false,
        pgp_fetch: false,
        rebuild: "no".to_string(),
        remove_make: "no".to_string(),
        redownload: "no".to_string(),
        mflags: vec![],
        asp_bin: "asp".to_string(),
        aur_url: "https://aur.archlinux.org".to_string(),
        arch: "x86_64".to_string(),
        ignore_pkg: vec![],
    }
}

fn build(name: &str, make: bool) -> BuildBase {
    BuildBase {
        pkgs: vec![BuildPackage {
            pkg: AurPackage {
                name: name.to_string(),
                package_base: name.to_string(),
                version: "1-1".to_string(),
                maintainer: None,
                out_of_date: None,
                depends: vec![],
                make_depends: vec![],
                check_depends: vec![],
            },
            make,
            target: !make,
        }],
    }
}

fn actions(build: Vec<BuildBase>) -> Actions {
    Actions { build, install: vec![], missing: vec![], unneeded: vec![], duplicates: vec![] }
}

fn keys(args: &Args) -> Vec<String> {
    args.args
        .iter()
        .map(|a| match &a.value {
            Some(value) => format!("{}={}", a.key, value),
            None => a.key.clone(),
        })
        .collect()
}

/// A run with one target of the AUR, up to the point where it was resolved.
fn resolved(config: Config, to: Actions) -> Install<String> {
    let mut run = install::<String>(config, &texts(&["a"]));
    run.split(vec![], texts(&["a"]));
    assert_eq!(run.stage(), Stage::Databases);
    run.done();
    assert_eq!(run.stage(), Stage::Resolve);
    assert_eq!(run.notice().unwrap(), ":: Resolving dependencies...");
    assert_eq!(run.targets(), &texts(&["a"]));
    assert!(run.resolved(to).is_ok());
    run
}

#[test]
fn settings_are_prepared() {
    let run = install::<String>(config(&["d", "nodeps"]), &texts(&["a", "b"]));
    let c = run.config();
    assert_eq!(c.op, "sync");
    assert_eq!(c.args.op, "sync");
    assert_eq!(c.globals.op, "sync");
    assert_eq!(c.targets, vec!["a", "b"]);
    assert_eq!(c.args.targets, vec!["a", "b"]);
    assert!(c.globals.targets.is_empty());
    assert_eq!(c.mflags, vec!["-d"]);
    assert!(install::<String>(config(&[]), &vec![]).into_config().mflags.is_empty());
}

#[test]
fn flags_follow_the_command_line() {
    let f = install::<String>(config(&["d", "u", "needed"]), &vec![]).flags();
    assert!(f.no_dep_version && !f.no_deps && !f.enable_downgrade && !f.needed);
    assert!(f.target_provides && f.missing_provides && !f.aur_only && !f.repo_only);
    let f = install::<String>(config(&["d", "d", "u", "sysupgrade", "needed", "needed"]), &vec![]).flags();
    assert!(f.no_dep_version && f.no_deps && f.enable_downgrade && f.needed);
    let mut c = config(&[]);
    c.mode = "aur".to_string();
    c.provides = false;
    let f = install::<String>(c, &vec![]).flags();
    assert!(f.aur_only && !f.repo_only && !f.target_provides && !f.missing_provides);
    let mut c = config(&[]);
    c.mode = "repo".to_string();
    c.op = "yay".to_string();
    let f = install::<String>(c, &vec![]).flags();
    assert!(f.repo_only && !f.target_provides && f.missing_provides);
}

#[test]
fn rights_are_kept_first() {
    let mut c = config(&[]);
    c.sudo_loop = true;
    let mut run = install::<String>(c, &vec![]);
    assert_eq!(run.stage(), Stage::Sudo);
    run.done();
    assert_eq!(run.stage(), Stage::Split);
}

#[test]
fn settings_wait_for_the_rights() {
    let mut c = config(&["d"]);
    c.sudo_loop = true;
    c.op = "yay".to_string();
    c.targets = texts(&["old"]);
    let mut run = install::<String>(c, &texts(&["a"]));
    assert_eq!(run.config().op, "yay");
    assert_eq!(run.config().args.op, "yay");
    assert_eq!(run.config().targets, vec!["old"]);
    assert!(run.config().mflags.is_empty());
    assert!(!run.flags().target_provides);
    run.done();
    assert_eq!(run.config().op, "sync");
    assert_eq!(run.config().args.op, "sync");
    assert_eq!(run.config().globals.op, "sync");
    assert_eq!(run.config().targets, vec!["a"]);
    assert_eq!(run.config().args.targets, vec!["a"]);
    assert_eq!(run.config().mflags, vec!["-d"]);
}

#[test]
fn failed_rights_leave_the_settings() {
    let mut c = config(&["d"]);
    c.sudo_loop = true;
    c.op = "yay".to_string();
    let back = install::<String>(c, &texts(&["a"])).into_config();
    assert_eq!(back.op, "yay");
    assert!(back.targets.is_empty());
    assert!(back.mflags.is_empty());
}

#[test]
fn repo_targets_go_to_the_package_manager() {
    let mut run = install::<String>(config(&[]), &texts(&["vim"]));
    run.split(texts(&["core/vim"]), vec![]);
    assert_eq!(run.stage(), Stage::Early);
    assert_eq!(run.early_call().targets, vec!["core/vim"]);
    run.done();
    assert_eq!(run.stage(), Stage::Done);
    assert_eq!(run.code(), 0);
    assert!(run.notice().is_none());
}

#[test]
fn early_targets_are_not_resolved_again() {
    let mut run = install::<String>(config(&[]), &texts(&["vim", "a"]));
    run.split(texts(&["vim"]), texts(&["a"]));
    run.done();
    assert_eq!(run.stage(), Stage::Databases);
    run.done();
    assert_eq!(run.targets(), &texts(&["a"]));
}

#[test]
fn nothing_for_the_aur() {
    let mut run = install::<String>(config(&[]), &vec![]);
    run.split(vec![], vec![]);
    assert_eq!(run.stage(), Stage::Done);
    assert_eq!(run.code(), 0);
}

#[test]
fn aur_mode_leaves_the_repositories_alone() {
    let mut c = config(&["y"]);
    c.mode = "aur".to_string();
    let mut run = install::<String>(c, &texts(&["a"]));
    run.split(texts(&["vim"]), texts(&["a"]));
    assert_eq!(run.stage(), Stage::Databases);
}

#[test]
fn combined_upgrade_refreshes_first() {
    let mut c = config(&["y", "u"]);
    c.combined_upgrade = true;
    let mut run = install::<String>(c, &vec![]);
    run.split(vec![], vec![]);
    assert_eq!(run.stage(), Stage::Refresh);
    assert_eq!(keys(&run.refresh_call()), vec!["noconfirm", "y"]);
    run.done();
    assert_eq!(run.stage(), Stage::Databases);
    run.done();
    assert_eq!(run.stage(), Stage::Updates);
    assert_eq!(run.notice().unwrap(), ":: Looking for AUR upgrades");
    run.done();
    assert_eq!(run.stage(), Stage::Select);
    run.selected(&vec![], &texts(&["core/linux", "x/y/z"]), &texts(&["glibc"]));
    assert_eq!(run.stage(), Stage::Pacman);
    let call = run.pacman_call();
    assert_eq!(keys(&call), vec!["u", "ignore=glibc"]);
    assert_eq!(call.targets, vec!["core/linux", "x/y"]);
    assert_eq!(keys(&run.config().globals), vec!["noconfirm", "ignore=glibc"]);
    run.pacman_done(7);
    assert_eq!(run.stage(), Stage::Done);
    assert_eq!(run.code(), 7);
}

#[test]
fn combined_without_refresh() {
    let mut c = config(&[]);
    c.combined_upgrade = true;
    let mut run = install::<String>(c, &texts(&["vim", "a"]));
    run.split(texts(&["vim"]), texts(&["a"]));
    assert_eq!(run.stage(), Stage::Databases);
    run.done();
    assert_eq!(run.stage(), Stage::Resolve);
    assert_eq!(run.targets(), &texts(&["vim", "a"]));
}

#[test]
fn repo_mode_asks_no_aur() {
    let mut c = config(&["u"]);
    c.mode = "repo".to_string();
    let mut run = install::<String>(c, &vec![]);
    run.split(vec![], vec![]);
    assert_eq!(run.stage(), Stage::Early);
    run.done();
    run.done();
    assert_eq!(run.stage(), Stage::Select);
}

#[test]
fn upgrades_are_resolved() {
    let mut run = install::<String>(config(&["u"]), &texts(&["a"]));
    run.split(vec![], texts(&["a"]));
    run.done();
    run.done();
    run.done();
    run.selected(&texts(&["yay"]), &texts(&["linux"]), &vec![]);
    assert_eq!(run.stage(), Stage::Resolve);
    assert_eq!(run.targets(), &texts(&["a", "yay", "linux"]));
}

#[test]
fn targets_out_of_nowhere() {
    let mut run = install::<String>(config(&[]), &vec![]);
    run.split(vec![], texts(&["a"]));
    run.done();
    assert_eq!(run.stage(), Stage::Done);
    assert_eq!(run.notice().unwrap(), "no targets");
    assert_eq!(run.code(), 1);
}

#[test]
fn obstacles_stop_the_run() {
    let mut run = install::<String>(config(&[]), &texts(&["a"]));
    run.split(vec![], texts(&["a"]));
    run.done();
    let mut to = actions(vec![]);
    to.duplicates = texts(&["a"]);
    match run.resolved(to) {
        Err(e) => assert_eq!(e.text(), "duplicate packages: a"),
        Ok(()) => panic!("resolved"),
    }
    assert_eq!(run.stage(), Stage::Failed);
}

#[test]
fn nothing_to_do() {
    let run = resolved(config(&[]), actions(vec![]));
    assert_eq!(run.stage(), Stage::Done);
    assert_eq!(run.notice().unwrap(), " there is nothing to do");
    assert_eq!(run.code(), 0);
}

#[test]
fn repo_packages_need_no_conflicts() {
    let mut to = actions(vec![]);
    to.install = vec![RepoPackage {
        db: "core".to_string(),
        name: "r".to_string(),
        version: "1-1".to_string(),
        make: true,
        target: false,
    }];
    let mut run = resolved(config(&[]), to);
    assert_eq!(run.stage(), Stage::Show);
    assert_eq!(run.listings().len(), 1);
    run.done();
    assert_eq!(run.stage(), Stage::Act);
}

#[test]
fn conflicts_stop_a_silent_run() {
    let mut c = config(&[]);
    c.no_confirm = true;
    let mut run = resolved(c, actions(vec![build("a", false)]));
    assert_eq!(run.stage(), Stage::Conflicts);
    let conflict = Conflict { pkg: "a".to_string(), conflicting: vec![] };
    let (told, result) = run.conflicts_found(vec![conflict], vec![]);
    assert!(told.contains("confirmed manually"));
    assert!(result.is_err());
    assert_eq!(run.stage(), Stage::Failed);
}

#[test]
fn act_and_clean() {
    let mut c = config(&[]);
    c.clean_after = true;
    let mut run = resolved(c, actions(vec![build("a", false), build("b", false)]));
    let conflict = Conflict { pkg: "a".to_string(), conflicting: vec![] };
    assert!(run.conflicts_found(vec![conflict], vec![]).1.is_ok());
    assert_eq!(run.conflicts().len(), 1);
    assert!(run.inner_conflicts().is_empty());
    assert_eq!(run.stage(), Stage::Show);
    run.done();
    assert_eq!(run.stage(), Stage::Act);
    assert_eq!(run.actions().build.len(), 2);
    run.acted(Ok(1));
    assert_eq!(run.stage(), Stage::Clean);
    assert_eq!(run.clean_base(), "a");
    run.done();
    assert_eq!(run.clean_base(), "b");
    run.done();
    assert_eq!(run.stage(), Stage::Done);
    assert_eq!(run.code(), 1);
    assert!(run.notice().is_none());
}

fn shown(remove_make: &str) -> Install<String> {
    let mut c = config(&[]);
    c.remove_make = remove_make.to_string();
    let mut run = resolved(c, actions(vec![build("a", false), build("m", true), build("n", true)]));
    assert!(run.conflicts_found(vec![], vec![]).1.is_ok());
    run.done();
    run
}

#[test]
fn make_dependencies_are_asked_about() {
    let mut run = shown("ask");
    assert_eq!(run.stage(), Stage::AskRemove);
    assert_eq!(run.question(), "Remove make dependencies after install?");
    run.answered(true);
    assert_eq!(run.stage(), Stage::Act);
    run.acted(Ok(0));
    assert_eq!(run.stage(), Stage::RemoveMake);
    let call = run.remove_call();
    assert_eq!(call.op, "remove");
    assert_eq!(keys(&call), vec!["noconfirm", "nocnfirm"]);
    assert_eq!(call.targets, vec!["m", "n"]);
    run.done();
    assert_eq!(run.stage(), Stage::Done);
}

#[test]
fn make_dependencies_stay() {
    let mut run = shown("ask");
    run.answered(false);
    run.acted(Ok(0));
    assert_eq!(run.stage(), Stage::Done);
    let mut run = shown("no");
    run.acted(Ok(0));
    assert_eq!(run.stage(), Stage::Done);
}

#[test]
fn make_dependencies_go() {
    let mut run = shown("yes");
    assert_eq!(run.stage(), Stage::Act);
    run.acted(Ok(0));
    assert_eq!(run.stage(), Stage::RemoveMake);
}

#[test]
fn failure_is_given_back_after_cleaning_up() {
    let mut c = config(&[]);
    c.remove_make = "yes".to_string();
    c.clean_after = true;
    let mut run = resolved(c, actions(vec![build("a", false), build("m", true)]));
    assert!(run.conflicts_found(vec![], vec![]).1.is_ok());
    run.done();
    run.acted(Err("no".to_string()));
    assert_eq!(run.stage(), Stage::RemoveMake);
    assert_eq!(run.remove_call().targets, vec!["m"]);
    run.done();
    assert_eq!(run.clean_base(), "a");
    run.done();
    assert_eq!(run.clean_base(), "m");
    run.done();
    assert_eq!(run.stage(), Stage::Done);
    assert!(run.notice().is_none());
    let (config, result) = run.finish();
    assert_eq!(config.op, "sync");
    assert_eq!(result, Err("no".to_string()));
}

#[test]
fn result_is_given_back() {
    let mut run = shown("no");
    run.acted(Ok(1));
    assert_eq!(run.finish().1, Ok(1));
    let mut run = install::<String>(config(&[]), &vec![]);
    run.split(vec![], vec![]);
    assert_eq!(run.finish().1, Ok(0));
}

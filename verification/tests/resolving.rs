use aur_install::actions::check_actions;
use aur_install::actions::check_conflicts;
use aur_install::actions::conflict_names;
use aur_install::actions::print_install;
use aur_install::args::Args;
use aur_install::config::Config;
use aur_install::package::Actions;
use aur_install::package::AurPackage;
use aur_install::package::BuildBase;
use aur_install::package::BuildPackage;
use aur_install::package::Conflict;
use aur_install::package::Conflicting;
use aur_install::package::Missing;
use aur_install::package::RepoPackage;
use aur_install::prompt::ask_group;
use aur_install::prompt::ask_provider;
use aur_install::prompt::count_members;
use aur_install::prompt::select_members;
use aur_install::prompt::Group;
use aur_install::style::Colors;
use aur_install::style::Colour;
use aur_install::style::Look;
use aur_install::style::Style;

fn texts(items: &[&str]) -> Vec<String> {
    items.iter().map(|s| s.to_string()).collect()
}

fn config() -> Config {
    let plain = Style::new();
    let args = Args { op: "sync".to_string(), args: vec![], targets: vec![] };
    Config {
        color: Colors {
            base: plain,
            action: plain,
            bold: Style::of(Look { is_bold: true, ..Look::default() }),
            error: Style::of(Look { foreground: Some(Colour::Red), ..Look::default() }),
            warning: Style::of(Look { foreground: Some(Colour::Yellow), ..Look::default() }),
        },
        cols: Some(70),
        args: args.clone(),
        globals: args,
        targets: vec![],
        op: "sync".to_string(),
        mode: "any".to_string(),
        provides: true,
        combined_upgrade: true,
        sudo_loop: false,
        no_confirm: false,
        use_ask: false,
        devel: false,
        batch_install: false,
        clean_after: false,
        pgp_fetch: false,
        rebuild: "no".to_string(),
        remove_make: "no".to_string(),
        redownload: "no".to_string(),
        mflags: vec![],
        asp_bin: "asp".to_string(),
        aur_url: "https://aur.archlinux.org".to_string(),
        arch: "x86_64".to_string(),
        ignore_pkg: vec![],
    }
}

fn build(name: &str, make: bool) -> BuildPackage {
    BuildPackage {
        pkg: AurPackage {
            name: name.to_string(),
            package_base: name.to_string(),
            version: "1-1".to_string(),
            maintainer: None,
            out_of_date: None,
            depends: vec![],
            make_depends: vec![],
            check_depends: vec![],
        },
        make,
        target: !make,
    }
}

fn repo(name: &str, make: bool) -> RepoPackage {
    RepoPackage {
        db: "core".to_string(),
        name: name.to_string(),
        version: "2-1".to_string(),
        make,
        target: !make,
    }
}

fn nothing() -> Actions {
    Actions { build: vec![], install: vec![], missing: vec![], unneeded: vec![], duplicates: vec![] }
}

#[test]
fn duplicates_are_refused_first() {
    let mut a = nothing();
    a.duplicates = texts(&["a", "b"]);
    a.missing = vec![Missing { dep: "x".to_string(), stack: vec![] }];
    match check_actions(&config(), &a) {
        Err(e) => assert_eq!(e.text(), "duplicate packages: a b"),
        Ok(_) => panic!("accepted"),
    }
}

#[test]
fn missing_packages_are_refused() {
    let mut a = nothing();
    a.missing = vec![
        Missing { dep: "x".to_string(), stack: vec![] },
        Missing { dep: "y".to_string(), stack: texts(&["a", "b"]) },
    ];
    match check_actions(&config(), &a) {
        Err(e) => assert_eq!(
            e.text(),
            "could not find all required packages:\n    \x1b[31mx\x1b[0m (target)\
             \n    \x1b[31my\x1b[0m (a -> b)"
        ),
        Ok(_) => panic!("accepted"),
    }
}

#[test]
fn conflicts_matter_where_something_is_built() {
    assert_eq!(check_actions(&config(), &nothing()).ok(), Some(false));
    let mut a = nothing();
    a.build = vec![BuildBase { pkgs: vec![build("a", false)] }];
    assert_eq!(check_actions(&config(), &a).ok(), Some(true));
}

fn conflict(pkg: &str, with: &[(&str, Option<&str>)]) -> Conflict {
    Conflict {
        pkg: pkg.to_string(),
        conflicting: with
            .iter()
            .map(|(p, c)| Conflicting {
                pkg: p.to_string(),
                conflict: c.map(|c| c.to_string()),
            })
            .collect(),
    }
}

#[test]
fn conflicts_are_reported() {
    let mut c = config();
    c.use_ask = true;
    let mut a = nothing();
    a.unneeded = texts(&["u", "v"]);
    let outer = vec![conflict("a", &[("b", None), ("c", Some("x>1"))])];
    let inner = vec![conflict("d", &[("e", None)]), conflict("f", &[])];
    let (told, result) = check_conflicts(&c, &a, &outer, &inner);
    assert!(result.is_ok());
    assert_eq!(
        told,
        "\x1b[31m::\x1b[0m \x1b[1mInner conflicts found:\x1b[0m\n    d: e  \n    f: \n\n\
         \x1b[31m::\x1b[0m \x1b[1mConflicts found:\x1b[0m\n    a: b  c   (x>1)\n\n\
         u is up to date -- skipping\nv is up to date -- skipping\n"
    );
}

#[test]
fn conflicts_without_answers_are_warned_about() {
    let (told, result) = check_conflicts(&config(), &nothing(), &vec![conflict("a", &[])], &vec![]);
    assert!(result.is_ok());
    assert_eq!(
        told,
        "\x1b[31m::\x1b[0m \x1b[1mConflicts found:\x1b[0m\n    a: \n\n\
         \x1b[33m::\x1b[0m \x1b[1mConflicting packages will have to be confirmed manually\x1b[0m\n"
    );
}

#[test]
fn conflicts_without_questions_are_refused() {
    let mut c = config();
    c.no_confirm = true;
    let mut a = nothing();
    a.unneeded = texts(&["u"]);
    let (told, result) = check_conflicts(&c, &a, &vec![], &vec![conflict("a", &[])]);
    match result {
        Err(e) => assert_eq!(e.text(), "can not install conflicting packages with --noconfirm"),
        Ok(()) => panic!("accepted"),
    }
    assert!(!told.contains("up to date"));
    c.use_ask = true;
    assert!(check_conflicts(&c, &a, &vec![], &vec![conflict("a", &[])]).1.is_ok());
}

#[test]
fn no_conflicts_nothing_told() {
    let mut c = config();
    c.no_confirm = true;
    let (told, result) = check_conflicts(&c, &nothing(), &vec![], &vec![]);
    assert_eq!(told, "");
    assert!(result.is_ok());
}

#[test]
fn names_of_conflicts() {
    let names = conflict_names(
        &vec![conflict("a", &[("x", None)]), conflict("b", &[])],
        &vec![conflict("c", &[])],
    );
    assert_eq!(names, vec!["a", "b", "c"]);
}

#[test]
fn what_will_be_installed() {
    let mut a = nothing();
    a.install = vec![repo("r1", false), repo("rm", true), repo("r2", false)];
    a.build = vec![
        BuildBase { pkgs: vec![build("b1", false), build("bm", true)] },
        BuildBase { pkgs: vec![build("b2", false)] },
    ];
    let lists = print_install(&config(), &a);
    let heads: Vec<&str> = lists.iter().map(|l| l.head.as_str()).collect();
    assert_eq!(
        heads,
        vec![
            "\x1b[1mRepo (2) \x1b[0m",
            "\x1b[1mRepo Make (1) \x1b[0m",
            "\x1b[1mAur (2) \x1b[0m",
            "\x1b[1mAur Make (1) \x1b[0m",
        ]
    );
    let starts: Vec<usize> = lists.iter().map(|l| l.start).collect();
    assert_eq!(starts, vec![18, 23, 17, 17]);
    assert_eq!(lists[0].items, vec!["r1-2-1", "r2-2-1"]);
    assert_eq!(lists[1].items, vec!["rm-2-1"]);
    assert_eq!(lists[2].items, vec!["b1-1-1", "b2-1-1"]);
    assert_eq!(lists[3].items, vec!["bm-1-1"]);
    assert!(lists.iter().all(|l| l.indent == 4 && l.cols == Some(70) && l.sep == "  "));
}

#[test]
fn lists_without_packages_are_left_out() {
    let mut a = nothing();
    a.build = vec![BuildBase { pkgs: (0..12).map(|_| build("b", false)).collect() }];
    let lists = print_install(&config(), &a);
    assert_eq!(lists.len(), 1);
    assert_eq!(lists[0].head, "\x1b[1mAur (12) \x1b[0m");
    assert_eq!(lists[0].start, 18);
}

#[test]
fn providers_are_numbered() {
    assert_eq!(
        ask_provider("java", &texts(&["jre8", "jre9"])),
        "\nThere are 2 providers avaliable for java:\nRepository AUR:\n    1) jre8  2) jre9  "
    );
}

fn group(db: &str, packages: &[&str]) -> Group {
    Group {
        db: db.to_string(),
        title: format!("<{}>", db),
        name: "base-devel".to_string(),
        packages: texts(packages),
    }
}

#[test]
fn groups_are_shown_by_repository() {
    let groups = vec![
        group("core", &["gcc", "make"]),
        group("core", &["m4"]),
        group("extra", &["foo"]),
    ];
    assert_eq!(count_members(&groups), 4);
    assert_eq!(
        ask_group(&groups),
        "\nThere are 4 members in group base-devel:\nRepository <core>\n    1) gcc  2) make  \
         1) m4  Repository <extra>\n    1) foo  \nEnter a selection (default=all): "
    );
}

#[test]
fn members_are_counted_through() {
    let groups = vec![group("core", &["gcc", "make"]), group("extra", &[]), group("x", &["foo"])];
    assert_eq!(select_members(&groups, &vec![false, true, true]), vec![(0, 1), (2, 0)]);
    assert_eq!(select_members(&groups, &vec![true, false, false]), vec![(0, 0)]);
    assert!(select_members(&groups, &vec![false; 3]).is_empty());
}

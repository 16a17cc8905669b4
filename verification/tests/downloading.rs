use aur_install::args::Args;
use aur_install::bases::Bases;
use aur_install::config::Config;
use aur_install::download::aur_pkgbuilds;
use aur_install::download::can_cut;
use aur_install::download::check_reply;
use aur_install::download::failed_request;
use aur_install::download::getpkgbuilds;
use aur_install::download::new_aur_pkgbuilds;
use aur_install::download::pkgbuild_url;
use aur_install::download::print_download;
use aur_install::download::repo_pkgbuilds;
use aur_install::download::show_pkgbuilds;
use aur_install::download::version_pairs;
use aur_install::download::Fetch;
use aur_install::download::FetchStage;
use aur_install::download::GetStage;
use aur_install::download::Progress;
use aur_install::error::Error;
use aur_install::package::AurPackage;
use aur_install::srcinfo::SrcInfo;
use aur_install::style::Colors;
use aur_install::style::Colour;
use aur_install::style::Look;
use aur_install::style::Style;
use aur_install::table::Table;
use aur_install::warnings::Warnings;

fn args() -> Args {
    Args { op: "sync".to_string(), args: vec![], targets: vec![] }
}

fn config() -> Config {
    let plain = Style::new();
    Config {
        color: Colors {
            base: Style::of(Look { is_bold: true, foreground: Some(Colour::Fixed(8)), ..Look::default() }),
            action: Style::of(Look { foreground: Some(Colour::Blue), ..Look::default() }),
            bold: Style::of(Look { is_bold: true, ..Look::default() }),
            error: Style::of(Look { is_bold: true, foreground: Some(Colour::Red), ..Look::default() }),
            warning: plain,
        },
        cols: Some(60),
        args: args(),
        globals: args(),
        targets: vec![],
        op: "getpkgbuild".to_string(),
        mode: "any".to_string(),
        provides: true,
        combined_upgrade: false,
        sudo_loop: false,
        no_confirm: false,
        use_ask: false,
        devel: false,
        batch_install: false,
        clean_after: false,
        pgp_fetch: false,
        rebuild: "no".to_string(),
        remove_make: "no".to_string(),
        redownload: "no".to_string(),
        mflags: vec![],
        asp_bin: "asp".to_string(),
        aur_url: "https://aur.archlinux.org".to_string(),
        arch: "x86_64".to_string(),
        ignore_pkg: vec![],
    }
}

fn texts(items: &[&str]) -> Vec<String> {
    items.iter().map(|s| s.to_string()).collect()
}

fn pkg(name: &str, base: &str, version: &str) -> AurPackage {
    AurPackage {
        name: name.to_string(),
        package_base: base.to_string(),
        version: version.to_string(),
        maintainer: Some("me".to_string()),
        out_of_date: None,
        depends: vec![],
        make_depends: vec![],
        check_depends: vec![],
    }
}

fn some_bases() -> Bases {
    Bases::from_iter(vec![pkg("a", "a", "2-1"), pkg("b1", "b", "1-1"), pkg("c", "c", "1-1")])
}

fn info(version: &str) -> SrcInfo {
    SrcInfo {
        pkgbase: "x".to_string(),
        epoch: None,
        pkgver: version.to_string(),
        pkgrel: "1".to_string(),
        source: vec![],
        valid_pgp_keys: vec![],
        pkgs: vec![],
    }
}

#[test]
fn download_line_is_padded() {
    assert_eq!(print_download(&config(), 3, 120, "foo"), " (  3/120) downloading: foo");
    assert_eq!(print_download(&config(), 1, 1, "foo"), " (1/1) downloading: foo");
}

#[test]
fn download_lines_align() {
    let lines: Vec<usize> = [1, 9, 10, 99, 100]
        .iter()
        .map(|n| print_download(&config(), *n, 100, "x").len())
        .collect();
    assert!(lines.iter().all(|n| *n == lines[0]));
    for (n, name) in [(1, "a"), (100, "some-name"), (42, "")] {
        let line = print_download(&config(), n, 100, name);
        assert_eq!(&line[2 * 3 + 4..], format!(" downloading: {}", name));
    }
}

#[test]
fn without_asp_nothing_is_fetched() {
    let plan = repo_pkgbuilds(&config(), &texts(&["vim"]), false, &vec![], &vec![]);
    assert_eq!(plan.complaint.unwrap(), "asp is not installed: can not get repo packages");
    assert!(plan.missing.is_none());
    assert!(plan.downloads.is_empty());
    assert_eq!(plan.code, 1);
}

#[test]
fn repo_packages_are_updated_or_exported() {
    let pkgs = texts(&["vim", "emacs"]);
    let plan = repo_pkgbuilds(&config(), &pkgs, true, &vec![true, true], &texts(&["emacs"]));
    assert!(plan.complaint.is_none());
    assert!(plan.missing.is_none());
    assert_eq!(plan.code, 0);
    assert_eq!(plan.downloads[0].line, " (1/2) downloading: vim");
    assert_eq!(plan.downloads[0].action, "export");
    assert_eq!(plan.downloads[0].pkg, "vim");
    assert_eq!(plan.downloads[0].failure, "failed to run: asp export vim");
    assert_eq!(plan.downloads[1].line, " (2/2) downloading: emacs");
    assert_eq!(plan.downloads[1].action, "update");
}

#[test]
fn missing_repo_packages_are_told() {
    let pkgs = texts(&["no", "vim", "nope"]);
    let plan = repo_pkgbuilds(&config(), &pkgs, true, &vec![false, true, false], &vec![]);
    let missing = plan.missing.unwrap();
    assert_eq!(missing.head, "\x1b[1;31m::\x1b[0m Missing ABS packages");
    assert_eq!(missing.style, config().color.base);
    assert_eq!(missing.start, ":: Missing ABS packages".len());
    assert_eq!(missing.indent, 3);
    assert_eq!(missing.cols, Some(60));
    assert_eq!(missing.items, vec!["no", "nope"]);
    assert_eq!(plan.downloads.len(), 1);
    assert_eq!(plan.downloads[0].line, " (1/3) downloading: vim");
    assert_eq!(plan.code, 1);
}

#[test]
fn nothing_to_download() {
    let run = aur_pkgbuilds(&config(), &Bases::new());
    let heading = "\n\x1b[34m::\x1b[0m \x1b[1mDownloading pkgbuilds...\x1b[0m";
    assert_eq!(run.heading, heading);
    assert_eq!(run.notice.unwrap(), " pkgbuilds up to date");
    assert!(matches!(run.progress, Progress::Nothing));
}

#[test]
fn narrow_terminal_gets_lines() {
    let run = aur_pkgbuilds(&config(), &some_bases());
    assert!(run.notice.is_none());
    assert!(matches!(run.progress, Progress::Lines));
    assert_eq!(run.names(), vec!["a", "b", "c"]);
    assert!(run.has("b"));
    assert!(!run.has("b1"));
    assert_eq!(run.line(&config(), 2, "b"), " (2/3) downloading: b (b1)");
}

#[test]
fn unknown_width_gets_lines() {
    let mut config = config();
    config.cols = None;
    assert!(matches!(aur_pkgbuilds(&config, &some_bases()).progress, Progress::Lines));
    config.cols = Some(79);
    assert!(matches!(aur_pkgbuilds(&config, &some_bases()).progress, Progress::Lines));
}

#[test]
fn wide_terminal_gets_a_bar() {
    let mut config = config();
    config.cols = Some(90);
    let run = aur_pkgbuilds(&config, &some_bases());
    match &run.progress {
        Progress::Bar { template, chars, prefix, width } => {
            assert_eq!(template, " ({pos:>1}/{len}) {prefix:!} [{wide_bar}]");
            assert_eq!(*chars, "-> ");
            assert_eq!(*width, 12);
            assert_eq!(prefix, "            ");
        }
        _ => panic!("no bar"),
    }
    assert_eq!(run.bar_text("b"), format!("b (b1){:<100}", ""));
    assert_eq!(run.prefix("b"), "b (b1)      ");
    assert_eq!(run.prefix("a"), "a           ");
}

#[test]
fn very_wide_terminal_has_a_long_prefix() {
    let mut config = config();
    config.cols = Some(300);
    let run = aur_pkgbuilds(&config, &some_bases());
    match &run.progress {
        Progress::Bar { prefix, width, .. } => {
            assert_eq!(*width, 222);
            assert_eq!(prefix.len(), 100);
        }
        _ => panic!("no bar"),
    }
    assert_eq!(run.prefix("a").len(), 101);
}

#[test]
fn narrowest_bar() {
    let mut config = config();
    config.cols = Some(80);
    let run = aur_pkgbuilds(&config, &some_bases());
    assert_eq!(run.prefix("b"), "b ");
}

#[test]
fn characters_are_not_cut_in_two() {
    assert!(can_cut("añb", 1));
    assert!(!can_cut("añb", 2));
    assert!(can_cut("añb", 3));
    assert!(can_cut("añb", 4));
    assert!(can_cut("añb", 50));
}

#[test]
fn version_pairs_follow_the_bases() {
    let mut infos: Table<SrcInfo> = Table::new();
    infos.insert("a".to_string(), info("1.5"));
    let pairs = version_pairs(&some_bases(), &infos);
    assert_eq!(pairs, vec![Some(("2-1".to_string(), "1.5-1".to_string())), None, None]);
}

#[test]
fn newer_and_unknown_bases_are_downloaded() {
    let mut infos: Table<SrcInfo> = Table::new();
    infos.insert("a".to_string(), info("1"));
    infos.insert("b".to_string(), info("1"));
    let run = new_aur_pkgbuilds(&config(), &some_bases(), &infos, &vec![true, false, false]);
    assert_eq!(run.names(), vec!["a", "c"]);
}

#[test]
fn up_to_date_bases_are_not_downloaded() {
    let mut infos: Table<SrcInfo> = Table::new();
    for name in ["a", "b", "c"] {
        infos.insert(name.to_string(), info("1"));
    }
    let run = new_aur_pkgbuilds(&config(), &some_bases(), &infos, &vec![false; 3]);
    assert_eq!(run.notice.unwrap(), " pkgbuilds up to date");
}

#[test]
fn everything_is_downloaded_on_request() {
    let mut config = config();
    config.redownload = "all".to_string();
    let mut infos: Table<SrcInfo> = Table::new();
    for name in ["a", "b", "c"] {
        infos.insert(name.to_string(), info("1"));
    }
    let run = new_aur_pkgbuilds(&config, &some_bases(), &infos, &vec![false; 3]);
    assert_eq!(run.names(), vec!["a", "b", "c"]);
}

fn found() -> Warnings {
    Warnings {
        pkgs: vec![pkg("a", "x", "1"), pkg("b", "y", "1"), pkg("c", "x", "1")],
        missing: texts(&["gone"]),
        ood: texts(&["a"]),
        orphans: vec![],
    }
}

#[test]
fn getting_from_both_sides() {
    let config = config();
    let mut run = getpkgbuilds(&config, &texts(&["vim"]), &texts(&["a", "b", "gone"]));
    assert_eq!(run.stage(), GetStage::Repo);
    run.repo_done(1);
    assert_eq!(run.stage(), GetStage::Query);
    assert_eq!(run.heading(), "\x1b[34m::\x1b[0m \x1b[1mQuerying AUR...\x1b[0m");
    let (missing, download) = run.queried(found());
    assert_eq!(missing.unwrap().items, vec!["gone"]);
    assert_eq!(download.names(), vec!["x", "y"]);
    assert_eq!(run.stage(), GetStage::Download);
    run.downloaded();
    assert_eq!(run.stage(), GetStage::Done);
    assert_eq!(run.code(), 1);
}

#[test]
fn missing_aur_targets_do_not_change_the_result() {
    let config = config();
    let mut run = getpkgbuilds(&config, &vec![], &texts(&["gone"]));
    assert_eq!(run.stage(), GetStage::Query);
    let _ = run.queried(found());
    run.downloaded();
    assert_eq!(run.code(), 0);
}

#[test]
fn getting_nothing() {
    let config = config();
    let run = getpkgbuilds(&config, &vec![], &vec![]);
    assert_eq!(run.stage(), GetStage::Done);
    assert_eq!(run.code(), 0);
    let mut run = getpkgbuilds(&config, &texts(&["vim"]), &vec![]);
    run.repo_done(0);
    assert_eq!(run.stage(), GetStage::Done);
}

#[test]
fn showing_targets() {
    let show = show_pkgbuilds(&config(), found());
    assert_eq!(show.bases, vec!["x", "y"]);
    assert_eq!(show.missing.unwrap().items, vec!["gone"]);
    assert_eq!(show.code, 1);
    let mut all = found();
    all.missing.clear();
    let show = show_pkgbuilds(&config(), all);
    assert!(show.missing.is_none());
    assert_eq!(show.code, 0);
}

#[test]
fn pkgbuild_address() {
    match pkgbuild_url(&config(), "yay") {
        Ok(url) => {
            assert_eq!(url, "https://aur.archlinux.org/cgit/aur.git/plain/PKGBUILD?h=yay")
        }
        Err(_) => panic!("no address"),
    }
}

#[test]
fn bad_address_is_an_error() {
    let mut config = config();
    config.aur_url = "no address".to_string();
    match pkgbuild_url(&config, "yay") {
        Err(Error::Address(cause)) => {
            assert_eq!(cause, "relative URL without a base");
            assert_eq!(Error::Address(cause).text(), "relative URL without a base");
        }
        _ => panic!("an address"),
    }
}

#[test]
fn refused_page_is_an_error() {
    assert!(check_reply("yay", "http://x/", true, "200 OK").is_ok());
    match check_reply("yay", "http://x/", false, "404 Not Found") {
        Err(e) => assert_eq!(e.text(), "yay: http://x/: 404 Not Found"),
        Ok(()) => panic!("accepted"),
    }
}

#[test]
fn failed_request_is_told() {
    assert_eq!(failed_request("yay", "http://x/").text(), "yay: http://x/");
}

#[test]
fn fetched_bases_are_merged() {
    let mut run = Fetch::new(aur_pkgbuilds(&config(), &some_bases()));
    assert_eq!(run.stage(), FetchStage::Fetch);
    assert_eq!(run.download().names(), vec!["a", "b", "c"]);
    run.fetched(texts(&["c", "a"]));
    assert_eq!(run.stage(), FetchStage::Merge);
    assert_eq!(run.to_merge(), &texts(&["c", "a"]));
    run.merged();
    assert_eq!(run.stage(), FetchStage::Done);
}

#[test]
fn nothing_to_fetch_or_merge() {
    let run = Fetch::new(aur_pkgbuilds(&config(), &Bases::new()));
    assert_eq!(run.stage(), FetchStage::Done);
}

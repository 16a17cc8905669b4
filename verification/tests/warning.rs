use aur_install::package::AurPackage;
use aur_install::style::Colors;
use aur_install::style::Colour;
use aur_install::style::Look;
use aur_install::style::Style;
use aur_install::warnings::cache_info_with_warnings;
use aur_install::warnings::sort_warnings;
use aur_install::warnings::Warnings;

fn colors() -> Colors {
    let plain = Style::new();
    Colors {
        base: plain,
        action: plain,
        bold: Style::of(Look { is_bold: true, ..Look::default() }),
        error: Style::of(Look { foreground: Some(Colour::Red), ..Look::default() }),
        warning: plain,
    }
}

fn pkg(name: &str, maintained: bool, ood: bool) -> AurPackage {
    AurPackage {
        name: name.to_string(),
        package_base: name.to_string(),
        version: "1-1".to_string(),
        maintainer: if maintained { Some("me".to_string()) } else { None },
        out_of_date: if ood { Some(1234) } else { None },
        depends: vec![],
        make_depends: vec![],
        check_depends: vec![],
    }
}

fn texts(items: &[&str]) -> Vec<String> {
    items.iter().map(|s| s.to_string()).collect()
}

fn cached(name: &str) -> raur_ext::Package {
    let json = format!(
        "{{\"ID\":1,\"Name\":\"{0}\",\"PackageBaseID\":2,\"PackageBase\":\"{0}\",\
         \"Version\":\"1-1\",\"Description\":null,\"NumVotes\":0,\"Popularity\":0.5,\
         \"OutOfDate\":null,\"Maintainer\":null,\"FirstSubmitted\":1,\"LastModified\":2}}",
        name
    );
    let pkg: raur::Package = serde_json::from_str(&json).unwrap();
    raur_ext::Package::from(pkg)
}

#[test]
fn known_names_are_not_missing() {
    let found = vec![pkg("a", true, false), pkg("b", true, false)];
    let w = sort_warnings(&texts(&["a", "x", "b"]), &vec![true, false, true], found, &vec![]);
    assert_eq!(w.missing, vec!["x"]);
    assert!(w.ood.is_empty());
    assert!(w.orphans.is_empty());
    assert_eq!(w.pkgs.len(), 2);
}

#[test]
fn flagged_and_orphaned_packages_are_told() {
    let found = vec![pkg("a", false, true), pkg("b", true, true), pkg("c", false, false)];
    let w = sort_warnings(&vec![], &vec![], found, &vec![]);
    assert_eq!(w.ood, vec!["a", "b"]);
    assert_eq!(w.orphans, vec!["a", "c"]);
}

#[test]
fn ignored_packages_are_silent() {
    let found = vec![pkg("a", false, true), pkg("b", false, true)];
    let ignore = texts(&["a", "x"]);
    let w = sort_warnings(&texts(&["a", "x", "y"]), &vec![true, false, false], found, &ignore);
    assert_eq!(w.missing, vec!["y"]);
    assert_eq!(w.ood, vec!["b"]);
    assert_eq!(w.orphans, vec!["b"]);
    assert_eq!(w.pkgs.len(), 2);
}

#[test]
fn cache_is_looked_up_by_name() {
    let mut cache = raur_ext::Cache::new();
    cache.insert(cached("here"));
    let found = vec![pkg("here", true, false)];
    let w = cache_info_with_warnings(&cache, found, &texts(&["here", "gone"]), &vec![]);
    assert_eq!(w.missing, vec!["gone"]);
    let empty = raur_ext::Cache::new();
    let w = cache_info_with_warnings(&empty, vec![], &texts(&["here", "gone"]), &vec![]);
    assert_eq!(w.missing, vec!["here", "gone"]);
}

fn warnings() -> Warnings {
    Warnings {
        pkgs: vec![],
        missing: texts(&["m"]),
        ood: texts(&["o", "p"]),
        orphans: texts(&["q"]),
    }
}

#[test]
fn missing_names_are_listed() {
    let l = warnings().missing(colors(), Some(100)).unwrap();
    assert_eq!(l.head, "\x1b[31m::\x1b[0m \x1b[1mCould not find packages: \x1b[0m");
    assert_eq!(l.start, ":: could not find packages: ".len());
    assert_eq!(l.indent, 4);
    assert_eq!(l.cols, Some(100));
    assert_eq!(l.sep, "  ");
    assert_eq!(l.style, Style::new());
    assert_eq!(l.items, vec!["m"]);
}

#[test]
fn packages_out_of_date_are_listed() {
    let l = warnings().ood(colors(), None).unwrap();
    assert_eq!(l.head, "\x1b[31m::\x1b[0m \x1b[1mOut of date: \x1b[0m");
    assert_eq!(l.start, ":: out of date: ".len());
    assert_eq!(l.items, vec!["o", "p"]);
}

#[test]
fn orphans_are_listed() {
    let l = warnings().orphans(colors(), None).unwrap();
    assert_eq!(l.head, "\x1b[31m::\x1b[0m \x1b[1mOrphans: \x1b[0m");
    assert_eq!(l.start, ":: orphans: ".len());
    assert_eq!(l.items, vec!["q"]);
}

#[test]
fn empty_lists_are_left_out() {
    let w = Warnings { pkgs: vec![], missing: vec![], ood: texts(&["o"]), orphans: vec![] };
    assert!(w.missing(colors(), None).is_none());
    assert!(w.orphans(colors(), None).is_none());
    let all = w.all(colors(), None);
    assert_eq!(all.len(), 1);
    assert_eq!(all[0].items, vec!["o"]);
}

#[test]
fn all_lists_come_in_order() {
    let all = warnings().all(colors(), None);
    let items: Vec<Vec<String>> = all.into_iter().map(|l| l.items).collect();
    assert_eq!(items, vec![vec!["m"], vec!["o", "p"], vec!["q"]]);
}

use aur_install::bases::Base;
use aur_install::bases::Bases;
use aur_install::package::AurPackage;

fn pkg(name: &str, base: &str, version: &str) -> AurPackage {
    AurPackage {
        name: name.to_string(),
        package_base: base.to_string(),
        version: version.to_string(),
        maintainer: None,
        out_of_date: None,
        depends: vec!["a".to_string()],
        make_depends: vec!["b".to_string(), "c".to_string()],
        check_depends: vec!["d".to_string()],
    }
}

fn shape(bases: &Bases) -> Vec<Vec<String>> {
    bases.bases.iter().map(|b| b.pkgs.iter().map(|p| p.name.clone()).collect()).collect()
}

#[test]
fn no_bases_at_first() {
    assert_eq!(Bases::new().bases.len(), 0);
    assert!(Bases::new().names().is_empty());
}

#[test]
fn packages_join_their_base() {
    let mut bases = Bases::new();
    bases.push(pkg("a1", "a", "1"));
    bases.push(pkg("b", "b", "1"));
    bases.push(pkg("a2", "a", "2"));
    assert_eq!(shape(&bases), vec![vec!["a1", "a2"], vec!["b"]]);
    assert_eq!(bases.names(), vec!["a", "b"]);
    assert_eq!(bases.bases[0].package_base(), "a");
    assert_eq!(bases.bases[0].version(), "1");
}

#[test]
fn grouping_keeps_order() {
    let pkgs = vec![
        pkg("z", "last", "1"),
        pkg("y", "first", "1"),
        pkg("x", "last", "1"),
        pkg("w", "first", "1"),
    ];
    let bases = Bases::from_iter(pkgs);
    assert_eq!(shape(&bases), vec![vec!["z", "x"], vec!["y", "w"]]);
    assert_eq!(bases.names(), vec!["last", "first"]);
}

#[test]
fn extending_twice_is_extending_once() {
    let mut twice = Bases::new();
    twice.extend(vec![pkg("a", "x", "1"), pkg("b", "y", "1")]);
    twice.extend(vec![pkg("c", "x", "1")]);
    let once = Bases::from_iter(vec![pkg("a", "x", "1"), pkg("b", "y", "1"), pkg("c", "x", "1")]);
    assert_eq!(shape(&twice), shape(&once));
}

#[test]
fn find_gives_the_first_base_of_a_name() {
    let bases = Bases {
        bases: vec![
            Base { pkgs: vec![pkg("a", "x", "1")] },
            Base { pkgs: vec![pkg("b", "y", "1")] },
            Base { pkgs: vec![pkg("c", "y", "1")] },
        ],
    };
    assert_eq!(bases.find("y"), Some(1));
    assert_eq!(bases.find("z"), None);
}

#[test]
fn base_of_one_package_shows_its_name() {
    assert_eq!(Base { pkgs: vec![pkg("yay", "yay", "1")] }.text(), "yay");
}

#[test]
fn base_of_another_name_shows_the_package() {
    assert_eq!(Base { pkgs: vec![pkg("libfoo", "foo", "1")] }.text(), "foo (libfoo)");
}

#[test]
fn base_of_several_packages_shows_them_all() {
    let base = Base { pkgs: vec![pkg("a", "x", "1"), pkg("b", "x", "1"), pkg("c", "x", "1")] };
    assert_eq!(base.text(), "x (ab c )");
}

#[test]
fn all_depends_come_in_order() {
    assert_eq!(pkg("a", "a", "1").all_depends(), vec!["a", "b", "c", "d"]);
}

#[test]
fn adding_keeps_names_versions_and_packages() {
    let mut bases = Bases::from_iter(vec![pkg("a", "x", "1"), pkg("b", "y", "2")]);
    bases.push(pkg("c", "x", "9"));
    bases.push(pkg("d", "z", "3"));
    let versions: Vec<&str> = bases.bases.iter().map(|b| b.version()).collect();
    assert_eq!(bases.names(), vec!["x", "y", "z"]);
    assert_eq!(versions, vec!["1", "2", "3"]);
    assert_eq!(bases.bases.iter().map(|b| b.pkgs.len()).sum::<usize>(), 4);
}

use aur_install::error::Error;
use aur_install::package_list::parse_package_list;
use aur_install::package_list::parse_paths;
use aur_install::style::heading_text;
use aur_install::style::Colour;
use aur_install::style::Look;
use aur_install::style::Style;
use aur_install::table::Table;
use aur_install::text;

fn texts(items: &[&str]) -> Vec<String> {
    items.iter().map(|s| s.to_string()).collect()
}

#[test]
fn package_list_is_read() {
    let out = "/pkgs/foo-bar-1.2-3-x86_64.pkg.tar.zst\n/pkgs/foo-1.2-3-any.pkg.tar.zst\n";
    let list = parse_package_list(out.as_bytes().to_vec()).ok().unwrap();
    assert_eq!(list.paths.len(), 2);
    assert_eq!(list.paths.get("foo-bar").unwrap(), "/pkgs/foo-bar-1.2-3-x86_64.pkg.tar.zst");
    assert_eq!(list.paths.get("foo").unwrap(), "/pkgs/foo-1.2-3-any.pkg.tar.zst");
    assert!(list.paths.get("bar").is_none());
    assert_eq!(list.version, "1.2-3");
}

#[test]
fn version_of_the_last_line_counts() {
    let list = parse_paths(&texts(&["a-1-1-any.x", "b-2-7-any.x"])).ok().unwrap();
    assert_eq!(list.version, "2-7");
}

#[test]
fn later_path_of_a_package_counts() {
    let list = parse_paths(&texts(&["/x/a-1-1-any", "/y/a-2-1-any"])).ok().unwrap();
    assert_eq!(list.paths.len(), 1);
    assert_eq!(list.paths.get("a").unwrap(), "/y/a-2-1-any");
}

#[test]
fn empty_package_list() {
    let list = parse_package_list(b" \n\n ".to_vec()).ok().unwrap();
    assert_eq!(list.paths.len(), 0);
    assert_eq!(list.version, "");
}

#[test]
fn line_ends_of_both_kinds() {
    let list = parse_package_list(b"\r\n a-1-1-any\r\nb-1-1-any\t".to_vec()).ok().unwrap();
    assert_eq!(list.paths.get("a").unwrap(), "a-1-1-any");
    assert_eq!(list.paths.get("b").unwrap(), "b-1-1-any");
}

#[test]
fn line_without_a_name_is_an_error() {
    let out = "/pkgs/a-1-1-any.x\n/some-long-dir/foo-1.x\n/bad\n";
    match parse_package_list(out.as_bytes().to_vec()) {
        Err(e) => assert_eq!(
            e.text(),
            "can't find package name in packagelist: /some-long-dir/foo-1.x"
        ),
        Ok(_) => panic!("read"),
    }
}

#[test]
fn list_must_be_utf8() {
    match parse_package_list(vec![0x61, 0xff]) {
        Err(e) => assert_eq!(e.text(), "pkgdest is not utf8"),
        Ok(_) => panic!("read"),
    }
}

#[test]
fn list_may_hold_any_letter() {
    let list = parse_package_list("/ä/é-1-1-any".as_bytes().to_vec()).ok().unwrap();
    assert_eq!(list.paths.get("é").unwrap(), "/ä/é-1-1-any");
}

#[test]
fn messages() {
    assert_eq!(
        Error::DuplicatePackages(texts(&["a", "b"])).text(),
        "duplicate packages: a b"
    );
    assert_eq!(Error::MissingPackages("m".to_string()).text(), "m");
    assert_eq!(
        Error::Conflicts.text(),
        "can not install conflicting packages with --noconfirm"
    );
    assert_eq!(Error::NoSrcinfo("a".to_string()).text(), "could not find .SRINFO for 'a'");
    let bad = Error::BadSrcinfo { base: "a".to_string(), cause: "c".to_string() };
    assert_eq!(bad.text(), "failed to parse srcinfo for 'a'");
    assert_eq!(Error::FileManager.text(), "file manager did not execute successfully");
    let lost = Error::NotListed { pkg: "p".to_string(), base: "b".to_string() };
    assert_eq!(lost.text(), "could not find package 'p' in package list for 'b'");
    assert_eq!(
        Error::Download("b".to_string()).text(),
        "failed to download sources for 'b'"
    );
    assert_eq!(Error::Build("b".to_string()).text(), "failed to build 'b'");
}

#[test]
fn colours_of_headings() {
    let plain = Style::new();
    let cases = [
        (Colour::Black, "30"),
        (Colour::Red, "31"),
        (Colour::Green, "32"),
        (Colour::Yellow, "33"),
        (Colour::Blue, "34"),
        (Colour::Purple, "35"),
        (Colour::Cyan, "36"),
        (Colour::White, "37"),
        (Colour::Fixed(200), "38;5;200"),
    ];
    for (colour, code) in cases {
        let style = Style::of(Look { foreground: Some(colour), ..Look::default() });
        assert_eq!(heading_text(style, plain, "t"), format!("\x1b[{}m::\x1b[0m t", code));
        let style = Style::of(Look { is_bold: true, foreground: Some(colour), ..Look::default() });
        assert_eq!(heading_text(plain, style, "t"), format!(":: \x1b[1;{}mt\x1b[0m", code));
    }
    assert_eq!(heading_text(plain, Style::new(), "t"), ":: t");
}

#[test]
fn looks_of_headings() {
    let plain = Style::new();
    let cases = [
        (Look { is_bold: true, ..Look::default() }, "1"),
        (Look { is_dimmed: true, ..Look::default() }, "2"),
        (Look { is_italic: true, ..Look::default() }, "3"),
        (Look { is_underline: true, ..Look::default() }, "4"),
        (Look { is_blink: true, ..Look::default() }, "5"),
        (Look { is_reverse: true, ..Look::default() }, "7"),
        (Look { is_hidden: true, ..Look::default() }, "8"),
        (Look { is_strikethrough: true, ..Look::default() }, "9"),
        (Look { background: Some(Colour::Black), ..Look::default() }, "40"),
        (Look { background: Some(Colour::White), ..Look::default() }, "47"),
        (Look { background: Some(Colour::Fixed(9)), ..Look::default() }, "48;5;9"),
        (Look { foreground: Some(Colour::RGB(1, 20, 255)), ..Look::default() }, "38;2;1;20;255"),
        (
            Look {
                foreground: Some(Colour::Cyan),
                background: Some(Colour::RGB(0, 0, 0)),
                is_bold: true,
                is_underline: true,
                ..Look::default()
            },
            "1;4;48;2;0;0;0;36",
        ),
    ];
    for (look, code) in cases {
        let style = Style::of(look);
        assert_eq!(style.look(), look);
        assert_eq!(heading_text(style, plain, "t"), format!("\x1b[{}m::\x1b[0m t", code));
    }
}

#[test]
fn numbers() {
    assert_eq!(text::number_text(0), "0");
    assert_eq!(text::number_text(u64::MAX), "18446744073709551615");
    assert_eq!(text::length_text(100), "100");
    assert_eq!(text::signed_text(i32::MIN), "-2147483648");
    assert_eq!(text::signed_text(i32::MAX), "2147483647");
}

#[test]
fn reading_numbers() {
    for s in ["", "-", "+", "1x", " 1", "2147483648", "-2147483649", "--1", "１"] {
        assert_eq!(text::parse_i32(s), s.parse::<i32>().ok());
        assert_eq!(text::parse_i32(s), None);
    }
    for s in ["0", "+7", "-7", "007", "2147483647", "-2147483648"] {
        assert_eq!(text::parse_i32(s), s.parse::<i32>().ok());
        assert!(text::parse_i32(s).is_some());
    }
}

#[test]
fn cutting_and_joining() {
    assert_eq!(text::split("a-b--c", '-'), vec!["a", "b", "", "c"]);
    assert_eq!(text::split("", '-'), vec![""]);
    let parts = text::split("x/y/z", '/');
    assert_eq!(text::join(&parts, 0, 3, "/"), "x/y/z");
    assert_eq!(text::join(&parts, 1, 1, "/"), "");
}

#[test]
fn lines_and_white_space_as_in_std() {
    for s in ["", "\n", "a", "a\n", "a\r\nb\r", "a\n\nb", "\r\n\r\n", "a\rb\n"] {
        let expected: Vec<&str> = s.lines().collect();
        assert_eq!(text::lines(s), expected);
    }
    for s in ["", " ", " a ", "\u{3000}a b\u{a0}", "\u{200b}a", "\ta\u{2028}\n"] {
        assert_eq!(text::trim(s), s.trim());
    }
}

#[test]
fn endings_and_padding() {
    assert!(text::ends_with("foo-git", "-git"));
    assert!(!text::ends_with("git", "-git"));
    assert_eq!(text::align_right("7", 3), "  7");
    assert_eq!(text::align_right("1234", 3), "1234");
}

#[test]
fn table_keeps_one_row_for_a_key() {
    let mut t: Table<u8> = Table::new();
    t.insert("a".to_string(), 1);
    t.insert("b".to_string(), 2);
    t.insert("a".to_string(), 3);
    assert_eq!(t.len(), 2);
    assert_eq!(*t.value(0), 3);
    assert_eq!(t.get("b"), Some(&2));
    assert!(t.contains_key("a"));
    assert_eq!(t.remove("a"), Some(3));
    assert_eq!(t.remove("a"), None);
    assert_eq!(t.len(), 1);
}

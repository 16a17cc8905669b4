//! The package list that `makepkg --packagelist` prints: one path for each package
//! that a build makes, the file named `name-version-release-arch.extension`.
use vstd::prelude::*;
use vstd::utf8;

use crate::error::Error;
use crate::error::ErrorView;
use crate::table::Table;
use crate::text;

verus! {

/// Where the packages of a build go, and their version.
pub struct PackageList {
    /// The path of each package, by name.
    pub paths: Table<String>,
    /// Version and release of the package listed last.
    pub version: String,
}

#[verifier::ext_equal]
pub struct PackageListView {
    pub paths: Map<Seq<char>, Seq<char>>,
    pub version: Seq<char>,
}

impl View for PackageList {
    type V = PackageListView;

    open spec fn view(&self) -> PackageListView {
        PackageListView {
            paths: self.paths@.map_values(|path: String| path@),
            version: self.version@,
        }
    }
}

/// The file name of a path: what follows the last slash.
pub open spec fn file_of(path: Seq<char>) -> Seq<char> {
    text::pieces(path, '/').last()
}

/// The parts of a path's file name between the dashes.
pub open spec fn parts_of(path: Seq<char>) -> Seq<Seq<char>> {
    text::pieces(file_of(path), '-')
}

/// Whether a path's file name has the four parts that it needs.
pub open spec fn named(path: Seq<char>) -> bool {
    parts_of(path).len() >= 4
}

/// The name of the package at a path: all but the last three parts.
pub open spec fn name_of(path: Seq<char>) -> Seq<char> {
    let parts = parts_of(path);
    text::joined(parts.take(parts.len() - 3), "-"@)
}

/// Version and release of the package at a path: the two parts before the last.
pub open spec fn version_of(path: Seq<char>) -> Seq<char> {
    let parts = parts_of(path);
    text::joined(parts.subrange(parts.len() - 3, parts.len() - 1), "-"@)
}

/// The packages that some paths stand for. Of two paths for one package the later
/// counts; the first path that names no package spoils the list.
pub open spec fn listed(paths: Seq<Seq<char>>) -> Result<PackageListView, ErrorView>
    decreases paths.len(),
{
    if paths.len() == 0 {
        Ok(PackageListView { paths: Map::empty(), version: Seq::empty() })
    } else {
        match listed(paths.drop_last()) {
            Err(e) => Err(e),
            Ok(list) => if named(paths.last()) {
                Ok(
                    PackageListView {
                        paths: list.paths.insert(name_of(paths.last()), paths.last()),
                        version: version_of(paths.last()),
                    },
                )
            } else {
                Err(ErrorView::BadPackageList(paths.last()))
            },
        }
    }
}

/// What a printed package list says.
pub open spec fn printed(output: Seq<u8>) -> Result<PackageListView, ErrorView> {
    if utf8::valid_utf8(output) {
        listed(text::lines_of(text::trimmed(utf8::decode_utf8(output))))
    } else {
        Err(ErrorView::NotUtf8)
    }
}

/// `String::from_utf8`: the text that the bytes encode, or nothing where they are not
/// UTF-8.
#[verifier::external_body]
fn decode(bytes: Vec<u8>) -> (r: Option<String>)
    ensures
        r is Some <==> utf8::valid_utf8(bytes@),
        r matches Some(s) ==> s@ == utf8::decode_utf8(bytes@),
{
    String::from_utf8(bytes).ok()
}

/// Reads what `makepkg --packagelist` printed.
pub fn parse_package_list(output: Vec<u8>) -> (r: Result<PackageList, Error>)
    ensures
        match r {
            Ok(list) => list.paths.wf() && printed(output@) == Ok::<PackageListView, ErrorView>(
                list@,
            ),
            Err(e) => printed(output@) == Err::<PackageListView, ErrorView>(e@),
        },
{
    let output = match decode(output) {
        Some(output) => output,
        None => {
            return Err(Error::NotUtf8);
        },
    };
    let lines = text::lines(text::trim(output.as_str()).as_str());
    parse_paths(&lines)
}

/// Reads the lines of a package list.
pub fn parse_paths(lines: &Vec<String>) -> (r: Result<PackageList, Error>)
    ensures
        match r {
            Ok(list) => list.paths.wf() && listed(text::views(lines@)) == Ok::<
                PackageListView,
                ErrorView,
            >(list@),
            Err(e) => listed(text::views(lines@)) == Err::<PackageListView, ErrorView>(e@),
        },
{
    let mut list = PackageList { paths: Table::new(), version: String::new() };
    let ghost all = text::views(lines@);
    assert(list@.paths =~= Map::empty());
    assert(all.take(0) =~= Seq::<Seq<char>>::empty());
    for i in 0..lines.len()
        invariant
            all == text::views(lines@),
            list.paths.wf(),
            listed(all.take(i as int)) == Ok::<PackageListView, ErrorView>(list@),
    {
        let line = lines[i].as_str();
        proof {
            text::lemma_take_push(all, i as int);
            text::lemma_pieces_some(line@, '/');
        }
        let cut = text::split(line, '/');
        assert(cut[cut@.len() - 1]@ == text::views(cut@).last());
        let parts = text::split(cut[cut.len() - 1].as_str(), '-');
        let n = parts.len();
        if n < 4 {
            proof {
                lemma_bad_line(all, i as int);
            }
            return Err(Error::BadPackageList(lines[i].clone()));
        }
        let pkgname = text::join(&parts, 0, n - 3, "-");
        assert(parts_of(line@).subrange(0, n - 3) =~= parts_of(line@).take(n - 3));
        let version = text::join(&parts, n - 3, n - 1, "-");
        let ghost before = list@;
        list.paths.insert(pkgname, lines[i].clone());
        list.version = version;
        assert(list@.paths =~= before.paths.insert(name_of(line@), line@));
    }
    assert(all.take(lines@.len() as int) =~= all);
    Ok(list)
}

proof fn lemma_bad_line(paths: Seq<Seq<char>>, i: int)
    requires
        0 <= i < paths.len(),
        listed(paths.take(i)) is Ok,
        !named(paths[i]),
    ensures
        listed(paths) == Err::<PackageListView, ErrorView>(ErrorView::BadPackageList(paths[i])),
    decreases paths.len(),
{
    if i == paths.len() - 1 {
        assert(paths.take(i) =~= paths.drop_last());
    } else {
        assert(paths.drop_last().take(i) =~= paths.take(i));
        lemma_bad_line(paths.drop_last(), i);
    }
}

/// A file called `name-version-release-tail` is read as the package `name` in
/// `version-release`, whatever the directory and however many dashes the name has,
/// as long as version, release and tail have none.
pub proof fn law_file_name(
    dir: Seq<char>,
    name: Seq<char>,
    version: Seq<char>,
    release: Seq<char>,
    tail: Seq<char>,
)
    requires
        !name.contains('/'),
        !version.contains('/') && !version.contains('-'),
        !release.contains('/') && !release.contains('-'),
        !tail.contains('/') && !tail.contains('-'),
    ensures
        ({
            let path = dir + "/"@ + name + "-"@ + version + "-"@ + release + "-"@ + tail;
            &&& named(path)
            &&& name_of(path) == name
            &&& version_of(path) == version + "-"@ + release
        }),
{
    reveal_strlit("/");
    reveal_strlit("-");
    assert("/"@ =~= seq!['/']);
    assert("-"@ =~= seq!['-']);
    let path = dir + "/"@ + name + "-"@ + version + "-"@ + release + "-"@ + tail;
    let file = name + "-"@ + version + "-"@ + release + "-"@ + tail;
    assert(!file.contains('/')) by {
        if file.contains('/') {
            let k = choose|k: int| 0 <= k < file.len() && file[k] == '/';
            let a = name.len() as int;
            let b = a + 1 + version.len();
            let c = b + 1 + release.len();
            if k < a {
                assert(name[k] == '/');
            } else if k == a {
            } else if k < b {
                assert(version[k - a - 1] == '/');
            } else if k == b {
            } else if k < c {
                assert(release[k - b - 1] == '/');
            } else if k == c {
            } else {
                assert(tail[k - c - 1] == '/');
            }
        }
    }
    assert(path =~= dir.push('/') + file);
    text::lemma_pieces_concat(dir, '/', file);
    text::lemma_pieces_whole(file, '/');
    assert(file_of(path) == file);
    let end = release.push('-') + tail;
    let rest = version.push('-') + end;
    assert(file =~= name.push('-') + rest);
    text::lemma_pieces_concat(name, '-', rest);
    text::lemma_pieces_concat(version, '-', end);
    text::lemma_pieces_concat(release, '-', tail);
    text::lemma_pieces_whole(version, '-');
    text::lemma_pieces_whole(release, '-');
    text::lemma_pieces_whole(tail, '-');
    text::lemma_pieces_some(name, '-');
    let parts = parts_of(path);
    assert(parts =~= text::pieces(name, '-') + seq![version, release, tail]);
    assert(parts.take(parts.len() - 3) =~= text::pieces(name, '-'));
    text::lemma_joined_pieces(name, '-');
    let middle = parts.subrange(parts.len() - 3, parts.len() - 1);
    assert(middle =~= seq![version, release]);
    assert(middle.drop_last() =~= seq![version]);
    assert(text::joined(middle.drop_last(), "-"@) == version);
}

/// Whether no later path names the package of the `i`th.
pub open spec fn last_of_name(paths: Seq<Seq<char>>, i: int) -> bool {
    forall|j: int| i < j < paths.len() ==> name_of(#[trigger] paths[j]) != name_of(paths[i])
}

proof fn lemma_last_counts(paths: Seq<Seq<char>>, i: int)
    requires
        listed(paths) is Ok,
        0 <= i < paths.len(),
        last_of_name(paths, i),
    ensures
        listed(paths)->Ok_0.paths[name_of(paths[i])] == paths[i],
    decreases paths.len(),
{
    let init = paths.drop_last();
    if i < init.len() {
        assert(last_of_name(init, i)) by {
            assert forall|j: int| i < j < init.len() implies name_of(#[trigger] init[j])
                != name_of(init[i]) by {
                assert(init[j] == paths[j]);
            }
        }
        lemma_last_counts(init, i);
        assert(name_of(paths[paths.len() - 1]) != name_of(paths[i]));
    }
}

/// A list is read exactly where each of its paths names a package; then each of those
/// packages is found under its name, with the last of its paths, and the version is that
/// of the last path of all.
pub proof fn law_list_read(paths: Seq<Seq<char>>)
    ensures
        listed(paths) is Ok <==> forall|i: int| 0 <= i < paths.len() ==> named(#[trigger] paths[i]),
        listed(paths) matches Ok(list) ==> {
            &&& forall|i: int|
                0 <= i < paths.len() ==> list.paths.contains_key(name_of(#[trigger] paths[i]))
            &&& forall|i: int|
                0 <= i < paths.len() && last_of_name(paths, i) ==> list.paths[name_of(
                    #[trigger] paths[i],
                )] == paths[i]
            &&& forall|name: Seq<char>| #[trigger]
                list.paths.contains_key(name) ==> paths.contains(list.paths[name]) && name_of(
                    list.paths[name],
                ) == name
            &&& paths.len() > 0 ==> list.version == version_of(paths.last())
        },
    decreases paths.len(),
{
    if paths.len() > 0 {
        let init = paths.drop_last();
        law_list_read(init);
        if forall|i: int| 0 <= i < paths.len() ==> named(#[trigger] paths[i]) {
            assert forall|i: int| 0 <= i < init.len() implies named(#[trigger] init[i]) by {
                assert(init[i] == paths[i]);
            }
            assert(named(paths[paths.len() - 1]));
        }
        if listed(paths) is Ok {
            let before = listed(init)->Ok_0;
            let list = listed(paths)->Ok_0;
            assert forall|i: int| 0 <= i < paths.len() && last_of_name(paths, i) implies list.paths[
            name_of(#[trigger] paths[i])] == paths[i] by {
                lemma_last_counts(paths, i);
            }
            assert forall|i: int| 0 <= i < paths.len() implies named(#[trigger] paths[i])
                && list.paths.contains_key(name_of(paths[i])) by {
                if i < init.len() {
                    assert(init[i] == paths[i]);
                    assert(named(init[i]));
                }
            }
            assert forall|name: Seq<char>| #[trigger]
                list.paths.contains_key(name) implies paths.contains(list.paths[name])
                && name_of(list.paths[name]) == name by {
                if name == name_of(paths.last()) {
                    assert(paths[paths.len() - 1] == list.paths[name]);
                } else {
                    assert(before.paths.contains_key(name));
                    let k = choose|k: int| 0 <= k < init.len() && init[k] == before.paths[name];
                    assert(paths[k] == list.paths[name]);
                }
            }
        }
    }
}

/// A list that is printed one path to a line, with or without a line feed at the end, is
/// read as those paths; what is not UTF-8 is no list.
pub proof fn law_printed(paths: Seq<Seq<char>>, output: Seq<u8>)
    requires
        paths.len() > 0,
        forall|i: int|
            0 <= i < paths.len() ==> (#[trigger] paths[i]).len() > 0 && !paths[i].contains('\n')
                && !text::white(paths[i].first()) && !text::white(paths[i].last()),
    ensures
        ({
            let text = text::joined(paths, seq!['\n']);
            &&& printed(utf8::encode_utf8(text)) == listed(paths)
            &&& printed(utf8::encode_utf8(text.push('\n'))) == listed(paths)
        }),
        printed(output) == Err::<PackageListView, ErrorView>(ErrorView::NotUtf8)
            <== !utf8::valid_utf8(output),
{
    let nl = '\n';
    let text = text::joined(paths, seq![nl]);
    let none = Seq::<char>::empty();
    text::law_white('\r');
    text::law_white(nl);
    assert forall|i: int| 0 <= i < paths.len() implies (#[trigger] paths[i]).len() > 0
        && !paths[i].contains('\n') && paths[i].last() != '\r' by {}
    text::law_lines(paths);
    lemma_joined_ends(paths, nl);
    text::law_trimmed(none, text, none);
    text::law_trimmed(none, text, seq![nl]);
    assert(none + text + none =~= text);
    assert(none + text + seq![nl] =~= text.push(nl));
    utf8::encode_utf8_valid_utf8(text);
    utf8::encode_utf8_decode_utf8(text);
    utf8::encode_utf8_valid_utf8(text.push(nl));
    utf8::encode_utf8_decode_utf8(text.push(nl));
}

proof fn lemma_joined_ends(parts: Seq<Seq<char>>, sep: char)
    requires
        parts.len() > 0,
        forall|i: int| 0 <= i < parts.len() ==> (#[trigger] parts[i]).len() > 0,
    ensures
        ({
            let all = text::joined(parts, seq![sep]);
            &&& all.len() > 0
            &&& all.first() == parts.first().first()
            &&& all.last() == parts.last().last()
        }),
    decreases parts.len(),
{
    assert(parts[parts.len() - 1].len() > 0);
    if parts.len() > 1 {
        let init = parts.drop_last();
        assert forall|i: int| 0 <= i < init.len() implies (#[trigger] init[i]).len() > 0 by {
            assert(init[i] == parts[i]);
        }
        lemma_joined_ends(init, sep);
        assert(init.first() == parts.first());
    }
}

/// A path names a package exactly where its last part, behind the last slash, has three
/// dashes or more; the directory does not count.
pub proof fn law_named(dir: Seq<char>, file: Seq<char>)
    requires
        !file.contains('/'),
    ensures
        named(file) <==> file.filter(|c: char| c == '-').len() >= 3,
        named(dir + "/"@ + file) <==> named(file),
        name_of(dir + "/"@ + file) == name_of(file),
        version_of(dir + "/"@ + file) == version_of(file),
{
    reveal_strlit("/");
    assert("/"@ =~= seq!['/']);
    assert(dir + "/"@ + file =~= dir.push('/') + file);
    text::lemma_pieces_concat(dir, '/', file);
    text::lemma_pieces_whole(file, '/');
    text::law_pieces(file, '-');
}

} // verus!

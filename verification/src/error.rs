//! What can go wrong, and how it is told.
use vstd::prelude::*;

use crate::text;

verus! {

/// A failure.
pub enum Error {
    /// Some packages are wanted twice.
    DuplicatePackages(Vec<String>),
    /// Some packages could not be found; the text lists them.
    MissingPackages(String),
    /// There are conflicts, and nobody may be asked about them.
    Conflicts,
    /// A package base has no `.SRCINFO`.
    NoSrcinfo(String),
    /// The `.SRCINFO` of a package base cannot be read.
    BadSrcinfo { base: String, cause: String },
    /// The file manager failed.
    FileManager,
    /// The package list is not valid UTF-8.
    NotUtf8,
    /// A line of the package list names no package.
    BadPackageList(String),
    /// A package is not in the package list of its base.
    NotListed { pkg: String, base: String },
    /// The sources of a package base could not be downloaded.
    Download(String),
    /// A package base could not be built.
    Build(String),
    /// An address cannot be formed.
    Address(String),
    /// The package manager could not mark packages; the text is what it said.
    Mark(String),
    /// A server could not be asked for a page.
    Request { base: String, url: String },
    /// A server refused to hand a page out.
    Refused { base: String, url: String, status: String },
}

#[verifier::ext_equal]
pub enum ErrorView {
    DuplicatePackages(Seq<Seq<char>>),
    MissingPackages(Seq<char>),
    Conflicts,
    NoSrcinfo(Seq<char>),
    BadSrcinfo { base: Seq<char>, cause: Seq<char> },
    FileManager,
    NotUtf8,
    BadPackageList(Seq<char>),
    NotListed { pkg: Seq<char>, base: Seq<char> },
    Download(Seq<char>),
    Build(Seq<char>),
    Address(Seq<char>),
    Mark(Seq<char>),
    Request { base: Seq<char>, url: Seq<char> },
    Refused { base: Seq<char>, url: Seq<char>, status: Seq<char> },
}

impl View for Error {
    type V = ErrorView;

    open spec fn view(&self) -> ErrorView {
        match self {
            Error::DuplicatePackages(names) => ErrorView::DuplicatePackages(text::views(names@)),
            Error::MissingPackages(list) => ErrorView::MissingPackages(list@),
            Error::Conflicts => ErrorView::Conflicts,
            Error::NoSrcinfo(base) => ErrorView::NoSrcinfo(base@),
            Error::BadSrcinfo { base, cause } => ErrorView::BadSrcinfo {
                base: base@,
                cause: cause@,
            },
            Error::FileManager => ErrorView::FileManager,
            Error::NotUtf8 => ErrorView::NotUtf8,
            Error::BadPackageList(line) => ErrorView::BadPackageList(line@),
            Error::NotListed { pkg, base } => ErrorView::NotListed { pkg: pkg@, base: base@ },
            Error::Download(base) => ErrorView::Download(base@),
            Error::Build(base) => ErrorView::Build(base@),
            Error::Address(cause) => ErrorView::Address(cause@),
            Error::Mark(said) => ErrorView::Mark(said@),
            Error::Request { base, url } => ErrorView::Request { base: base@, url: url@ },
            Error::Refused { base, url, status } => ErrorView::Refused {
                base: base@,
                url: url@,
                status: status@,
            },
        }
    }
}

impl ErrorView {
    /// The message that tells of the failure.
    pub open spec fn text(self) -> Seq<char> {
        match self {
            ErrorView::DuplicatePackages(names) => "duplicate packages: "@ + text::joined(
                names,
                " "@,
            ),
            ErrorView::MissingPackages(list) => list,
            ErrorView::Conflicts => "can not install conflicting packages with --noconfirm"@,
            ErrorView::NoSrcinfo(base) => "could not find .SRINFO for '"@ + base + "'"@,
            ErrorView::BadSrcinfo { base, cause } => "failed to parse srcinfo for '"@ + base + "'"@,
            ErrorView::FileManager => "file manager did not execute successfully"@,
            ErrorView::NotUtf8 => "pkgdest is not utf8"@,
            ErrorView::BadPackageList(line) => "can't find package name in packagelist: "@ + line,
            ErrorView::NotListed { pkg, base } => "could not find package '"@ + pkg
                + "' in package list for '"@ + base + "'"@,
            ErrorView::Download(base) => "failed to download sources for '"@ + base + "'"@,
            ErrorView::Build(base) => "failed to build '"@ + base + "'"@,
            ErrorView::Address(cause) => cause,
            ErrorView::Mark(said) => said,
            ErrorView::Request { base, url } => base + ": "@ + url,
            ErrorView::Refused { base, url, status } => base + ": "@ + url + ": "@ + status,
        }
    }
}

fn quoted(before: &str, name: &str) -> (r: String)
    ensures
        r@ == before@ + name@ + "'"@,
{
    let mut out = before.to_owned();
    out.append(name);
    out.append("'");
    out
}

impl Error {
    /// Writes the message that tells of the failure.
    pub fn text(&self) -> (r: String)
        ensures
            r@ == self@.text(),
    {
        match self {
            Error::DuplicatePackages(names) => {
                let mut out = "duplicate packages: ".to_owned();
                out.append(text::join(names, 0, names.len(), " ").as_str());
                assert(text::views(names@).subrange(0, names@.len() as int) =~= text::views(names@));
                out
            },
            Error::MissingPackages(list) => list.clone(),
            Error::Conflicts => "can not install conflicting packages with --noconfirm".to_owned(),
            Error::NoSrcinfo(base) => quoted("could not find .SRINFO for '", base.as_str()),
            Error::BadSrcinfo { base, cause } => quoted(
                "failed to parse srcinfo for '",
                base.as_str(),
            ),
            Error::FileManager => "file manager did not execute successfully".to_owned(),
            Error::NotUtf8 => "pkgdest is not utf8".to_owned(),
            Error::BadPackageList(line) => {
                let mut out = "can't find package name in packagelist: ".to_owned();
                out.append(line.as_str());
                out
            },
            Error::NotListed { pkg, base } => {
                let mut out = "could not find package '".to_owned();
                out.append(pkg.as_str());
                out.append("' in package list for '");
                out.append(base.as_str());
                out.append("'");
                out
            },
            Error::Download(base) => quoted("failed to download sources for '", base.as_str()),
            Error::Build(base) => quoted("failed to build '", base.as_str()),
            Error::Address(cause) => cause.clone(),
            Error::Mark(said) => said.clone(),
            Error::Request { base, url } => {
                let mut out = base.clone();
                out.append(": ");
                out.append(url.as_str());
                out
            },
            Error::Refused { base, url, status } => {
                let mut out = base.clone();
                out.append(": ");
                out.append(url.as_str());
                out.append(": ");
                out.append(status.as_str());
                out
            },
        }
    }
}

proof fn lemma_between(before: Seq<char>, a: Seq<char>, b: Seq<char>, after: Seq<char>)
    ensures
        a != b ==> before + a + after != before + b + after,
{
    let one = before + a + after;
    let two = before + b + after;
    if one == two {
        assert(one.subrange(before.len() as int, one.len() - after.len()) =~= a);
        assert(two.subrange(before.len() as int, two.len() - after.len()) =~= b);
    }
}

/// A message tells what it is about: about two bases, lines or names there are two messages.
pub proof fn law_tells_apart(a: Seq<char>, b: Seq<char>)
    requires
        a != b,
    ensures
        ErrorView::NoSrcinfo(a).text() != ErrorView::NoSrcinfo(b).text(),
        (ErrorView::BadSrcinfo { base: a, cause: a }).text() != (ErrorView::BadSrcinfo {
            base: b,
            cause: a,
        }).text(),
        ErrorView::BadPackageList(a).text() != ErrorView::BadPackageList(b).text(),
        ErrorView::Download(a).text() != ErrorView::Download(b).text(),
        ErrorView::Build(a).text() != ErrorView::Build(b).text(),
        ErrorView::Address(a).text() == a,
        ErrorView::Mark(a).text() == a,
        ErrorView::MissingPackages(a).text() == a,
{
    lemma_between("could not find .SRINFO for '"@, a, b, "'"@);
    lemma_between("failed to parse srcinfo for '"@, a, b, "'"@);
    lemma_between("failed to download sources for '"@, a, b, "'"@);
    lemma_between("failed to build '"@, a, b, "'"@);
    let head = "can't find package name in packagelist: "@;
    assert((head + a).skip(head.len() as int) =~= a);
    assert((head + b).skip(head.len() as int) =~= b);
}

/// All packages that are wanted twice are told, in order.
pub proof fn law_duplicates_told(names: Seq<Seq<char>>, name: Seq<char>)
    ensures
        names.len() > 0 ==> ErrorView::DuplicatePackages(names.push(name)).text()
            == ErrorView::DuplicatePackages(names).text() + " "@ + name,
        ErrorView::DuplicatePackages(seq![name]).text() == "duplicate packages: "@ + name,
{
    text::law_joined(names, name, " "@);
    if names.len() > 0 {
        assert(ErrorView::DuplicatePackages(names.push(name)).text()
            =~= ErrorView::DuplicatePackages(names).text() + " "@ + name);
    }
}

/// Where a package is not listed, both the package and its base are told.
pub proof fn law_not_listed_told(pkg: Seq<char>, base: Seq<char>)
    ensures
        ({
            let told = ErrorView::NotListed { pkg, base }.text();
            let head = "could not find package '"@ + pkg + "'"@;
            let tail = "'"@ + base + "'"@;
            &&& head.is_prefix_of(told)
            &&& told.skip(told.len() - tail.len()) == tail
        }),
{
    reveal_strlit("could not find package '");
    reveal_strlit("' in package list for '");
    reveal_strlit("'");
    let told = ErrorView::NotListed { pkg, base }.text();
    let head = "could not find package '"@ + pkg + "'"@;
    let tail = "'"@ + base + "'"@;
    assert(told.take(head.len() as int) =~= head);
    assert(told.skip(told.len() - tail.len()) =~= tail);
}

} // verus!

//! Fetching the files that packages are built from.
use vstd::prelude::*;
use vstd::utf8;

use crate::bases;
use crate::bases::Base;
use crate::bases::Bases;
use crate::config::Config;
use crate::config::ConfigView;
use crate::error::Error;
use crate::error::ErrorView;
use crate::package::AurPackageView;
use crate::srcinfo::SrcInfo;
use crate::style;
use crate::style::Listing;
use crate::style::ListingView;
use crate::table::Table;
use crate::text;
use crate::warnings::Warnings;
use crate::warnings::WarningsView;

verus! {

/// The line that tells of the `n`th of `total` downloads.
pub open spec fn download_line(n: nat, total: nat, pkg: Seq<char>) -> Seq<char> {
    " ("@ + text::right_aligned(text::decimal(n), text::decimal(total).len()) + "/"@
        + text::decimal(total) + ") downloading: "@ + pkg
}

/// Writes the line that tells of the `n`th of `total` downloads.
pub fn print_download(_config: &Config, n: usize, total: usize, pkg: &str) -> (r: String)
    ensures
        r@ == download_line(n as nat, total as nat, pkg@),
{
    let total = text::length_text(total);
    let mut out = " (".to_owned();
    out.append(text::align_right(text::length_text(n).as_str(), total.as_str().unicode_len()).as_str());
    out.append("/");
    out.append(total.as_str());
    out.append(") downloading: ");
    out.append(pkg);
    out
}

/// The lines of one run of downloads line up: whatever the number and the name, the text
/// begins in the same column, and so does the name.
pub proof fn law_download_lines_align(n: nat, total: nat, pkg: Seq<char>)
    requires
        n <= total,
    ensures
        ({
            let digits = text::decimal(total).len() as int;
            let line = download_line(n, total, pkg);
            &&& line.len() == 2 * digits + 18 + pkg.len()
            &&& line.skip(2 * digits + 4) == " downloading: "@ + pkg
            &&& line.skip(2 * digits + 18) == pkg
        }),
{
    text::lemma_decimal_monotonic(n, total);
    reveal_strlit(" (");
    reveal_strlit("/");
    reveal_strlit(") downloading: ");
    reveal_strlit(" downloading: ");
    let digits = text::decimal(total).len() as int;
    let line = download_line(n, total, pkg);
    assert(text::right_aligned(text::decimal(n), digits as nat).len() == digits);
    assert(line.skip(2 * digits + 4) =~= " downloading: "@ + pkg);
    assert(line.skip(2 * digits + 18) =~= pkg);
}

// ---- packages of the repositories ----

/// A package to fetch with `asp`.
pub struct RepoDownload {
    /// The line that tells of it.
    pub line: String,
    /// What `asp` is to do.
    pub action: &'static str,
    pub pkg: String,
    /// What is told where `asp` cannot be run.
    pub failure: String,
}

#[verifier::ext_equal]
pub struct RepoDownloadView {
    pub line: Seq<char>,
    pub action: Seq<char>,
    pub pkg: Seq<char>,
    pub failure: Seq<char>,
}

impl View for RepoDownload {
    type V = RepoDownloadView;

    open spec fn view(&self) -> RepoDownloadView {
        RepoDownloadView {
            line: self.line@,
            action: self.action@,
            pkg: self.pkg@,
            failure: self.failure@,
        }
    }
}

/// How packages of the repositories are fetched.
pub struct RepoPlan {
    /// What is told where `asp` is not there.
    pub complaint: Option<String>,
    pub missing: Option<Listing>,
    pub downloads: Vec<RepoDownload>,
    /// The result of the whole.
    pub code: i32,
}

#[verifier::ext_equal]
pub struct RepoPlanView {
    pub complaint: Option<Seq<char>>,
    pub missing: Option<ListingView>,
    pub downloads: Seq<RepoDownloadView>,
    pub code: i32,
}

impl View for RepoPlan {
    type V = RepoPlanView;

    open spec fn view(&self) -> RepoPlanView {
        RepoPlanView {
            complaint: text::option_view(self.complaint),
            missing: text::option_view(self.missing),
            downloads: text::views(self.downloads@),
            code: self.code,
        }
    }
}

/// The `n`th of the packages to fetch, counted from zero. What is in the directory
/// already is updated.
pub open spec fn repo_download(
    config: ConfigView,
    n: int,
    total: nat,
    pkg: Seq<char>,
    dir: Seq<Seq<char>>,
) -> RepoDownloadView {
    let action = if dir.contains(pkg) {
        "update"@
    } else {
        "export"@
    };
    RepoDownloadView {
        line: download_line((n + 1) as nat, total, pkg),
        action,
        pkg,
        failure: "failed to run: "@ + config.asp_bin + " "@ + action + " "@ + pkg,
    }
}

/// How packages of the repositories are fetched, given whether `asp` runs, which of the
/// packages are known, and what the directory holds.
pub open spec fn repo_plan(
    config: ConfigView,
    pkgs: Seq<Seq<char>>,
    asp_runs: bool,
    present: Seq<bool>,
    dir: Seq<Seq<char>>,
) -> RepoPlanView {
    if !asp_runs {
        RepoPlanView {
            complaint: Some(config.asp_bin + " is not installed: can not get repo packages"@),
            missing: None,
            downloads: Seq::empty(),
            code: 1,
        }
    } else {
        let missing = text::marked(pkgs, present, false);
        let ok = text::marked(pkgs, present, true);
        RepoPlanView {
            complaint: None,
            missing: if missing.len() == 0 {
                None
            } else {
                Some(
                    ListingView {
                        head: style::painted(config.color.error, "::"@) + " Missing ABS packages"@,
                        style: config.color.base@,
                        start: 23,
                        indent: 3,
                        cols: config.cols,
                        sep: "  "@,
                        items: missing,
                    },
                )
            },
            downloads: ok.map(
                |n: int, pkg: Seq<char>| repo_download(config, n, pkgs.len(), pkg, dir),
            ),
            code: if missing.len() == 0 {
                0
            } else {
                1
            },
        }
    }
}

fn fetch_one(config: &Config, n: usize, total: usize, pkg: &String, dir: &Vec<String>) -> (r:
    RepoDownload)
    requires
        n < usize::MAX,
    ensures
        r@ == repo_download(config@, n as int, total as nat, pkg@, text::views(dir@)),
{
    let action: &'static str = if text::contains(dir, pkg.as_str()) {
        "update"
    } else {
        "export"
    };
    let mut failure = "failed to run: ".to_owned();
    failure.append(config.asp_bin.as_str());
    failure.append(" ");
    failure.append(action);
    failure.append(" ");
    failure.append(pkg.as_str());
    RepoDownload {
        line: print_download(config, n + 1, total, pkg.as_str()),
        action,
        pkg: pkg.clone(),
        failure,
    }
}

/// Decides how packages of the repositories are fetched. `asp_runs` says whether `asp`
/// is there; where it is, `present` says of each package whether it is known, and `dir`
/// lists what the directory holds.
pub fn repo_pkgbuilds(
    config: &Config,
    pkgs: &Vec<String>,
    asp_runs: bool,
    present: &Vec<bool>,
    dir: &Vec<String>,
) -> (r: RepoPlan)
    requires
        asp_runs ==> present@.len() == pkgs@.len(),
    ensures
        r@ == repo_plan(
            config@,
            text::views(pkgs@),
            asp_runs,
            present@,
            text::views(dir@),
        ),
{
    if !asp_runs {
        let mut complaint = config.asp_bin.clone();
        complaint.append(" is not installed: can not get repo packages");
        let r = RepoPlan { complaint: Some(complaint), missing: None, downloads: Vec::new(), code: 1 };
        assert(r@.downloads =~= Seq::empty());
        return r;
    }
    let ghost all = text::views(pkgs@);
    let ghost entries = text::views(dir@);
    let ghost make = |n: int, pkg: Seq<char>|
        repo_download(config@, n, all.len(), pkg, entries);
    let mut missing: Vec<String> = Vec::new();
    let mut downloads: Vec<RepoDownload> = Vec::new();
    proof {
        text::lemma_marked_none(all, present@, true);
        text::lemma_marked_none(all, present@, false);
    }
    assert(text::views(missing@) =~= text::marked(all.take(0), present@, false));
    assert(text::views(downloads@) =~= text::marked(all.take(0), present@, true).map(make));
    for i in 0..pkgs.len()
        invariant
            all == text::views(pkgs@),
            entries == text::views(dir@),
            make == (|n: int, pkg: Seq<char>|
                repo_download(config@, n, all.len(), pkg, entries)),
            present@.len() == pkgs@.len(),
            downloads@.len() <= i,
            text::views(missing@) == text::marked(all.take(i as int), present@, false),
            text::views(downloads@) == text::marked(all.take(i as int), present@, true).map(make),
    {
        proof {
            text::lemma_marked_push(all, present@, i as int, true);
            text::lemma_marked_push(all, present@, i as int, false);
        }
        if present[i] {
            let ghost ok = text::marked(all.take(i as int), present@, true);
            let download = fetch_one(config, downloads.len(), pkgs.len(), &pkgs[i], dir);
            proof {
                text::lemma_views_push(downloads@, download);
            }
            downloads.push(download);
            assert(text::views(downloads@) =~= ok.push(all[i as int]).map(make));
        } else {
            let pkg = pkgs[i].clone();
            proof {
                text::lemma_views_push(missing@, pkg);
            }
            missing.push(pkg);
        }
    }
    assert(all.take(pkgs@.len() as int) =~= all);
    if missing.len() == 0 {
        return RepoPlan { complaint: None, missing: None, downloads, code: 0 };
    }
    let mut head = style::paint(config.color.error, "::");
    head.append(" Missing ABS packages");
    let listing = Listing {
        head,
        style: config.color.base,
        start: 23,
        indent: 3,
        cols: config.cols,
        sep: "  ".to_owned(),
        items: missing,
    };
    RepoPlan { complaint: None, missing: Some(listing), downloads, code: 1 }
}

/// Every package is either fetched or told to be missing.
pub proof fn law_repo_none_lost(pkgs: Seq<Seq<char>>, present: Seq<bool>)
    requires
        present.len() == pkgs.len(),
    ensures
        text::marked(pkgs, present, true).len() + text::marked(pkgs, present, false).len() == pkgs.len(),
        forall|i: int|
            0 <= i < pkgs.len() ==> text::marked(pkgs, present, present[i]).contains(#[trigger] pkgs[i]),
{
    lemma_none_lost(pkgs, present, pkgs.len() as int);
    assert(pkgs.take(pkgs.len() as int) =~= pkgs);
}

proof fn lemma_none_lost(pkgs: Seq<Seq<char>>, present: Seq<bool>, n: int)
    requires
        0 <= n <= pkgs.len(),
        present.len() == pkgs.len(),
    ensures
        text::marked(pkgs.take(n), present, true).len() + text::marked(pkgs.take(n), present, false).len() == n,
        forall|i: int|
            0 <= i < n ==> text::marked(pkgs.take(n), present, present[i]).contains(#[trigger] pkgs[i]),
    decreases n,
{
    text::lemma_marked_none(pkgs, present, true);
    text::lemma_marked_none(pkgs, present, false);
    if n > 0 {
        lemma_none_lost(pkgs, present, n - 1);
        text::lemma_marked_push(pkgs, present, n - 1, true);
        text::lemma_marked_push(pkgs, present, n - 1, false);
        assert forall|i: int| 0 <= i < n implies text::marked(pkgs.take(n), present, present[i]).contains(
            #[trigger] pkgs[i],
        ) by {
            let less = text::marked(pkgs.take(n - 1), present, present[i]);
            let more = text::marked(pkgs.take(n), present, present[i]);
            if i < n - 1 {
                let k = choose|k: int| 0 <= k < less.len() && less[k] == pkgs[i];
                assert(more[k] == pkgs[i]);
            } else {
                assert(more[less.len() as int] == pkgs[i]);
            }
        }
    }
}

// ---- packages of the AUR ----

/// How the user sees a run of downloads.
pub enum Progress {
    /// There is nothing to see.
    Nothing,
    /// A line for each download.
    Lines,
    /// A bar of this look: its template, the characters that it is drawn with, the text
    /// before it and the room for that text, in bytes.
    Bar { template: String, chars: &'static str, prefix: String, width: usize },
}

#[verifier::ext_equal]
pub enum ProgressView {
    Nothing,
    Lines,
    Bar { template: Seq<char>, chars: Seq<char>, prefix: Seq<char>, width: nat },
}

impl View for Progress {
    type V = ProgressView;

    open spec fn view(&self) -> ProgressView {
        match self {
            Progress::Nothing => ProgressView::Nothing,
            Progress::Lines => ProgressView::Lines,
            Progress::Bar { template, chars, prefix, width } => ProgressView::Bar {
                template: template@,
                chars: chars@,
                prefix: prefix@,
                width: *width as nat,
            },
        }
    }
}

/// A run of downloads.
pub struct Download {
    pub heading: String,
    /// What is told where there is nothing to download.
    pub notice: Option<String>,
    pub bases: Bases,
    pub progress: Progress,
}

#[verifier::ext_equal]
pub struct DownloadView {
    pub heading: Seq<char>,
    pub notice: Option<Seq<char>>,
    pub bases: Seq<Seq<AurPackageView>>,
    pub progress: ProgressView,
}

impl View for Download {
    type V = DownloadView;

    open spec fn view(&self) -> DownloadView {
        DownloadView {
            heading: self.heading@,
            notice: text::option_view(self.notice),
            bases: self.bases@,
            progress: self.progress@,
        }
    }
}

/// A text up to its first `n` bytes, for an `n` where a character ends; the whole text
/// where it takes no more.
pub open spec fn cut(text: Seq<char>, n: nat) -> Seq<char> {
    let bytes = utf8::encode_utf8(text);
    if n < bytes.len() {
        utf8::decode_utf8(bytes.subrange(0, n as int))
    } else {
        text
    }
}

/// Whether a text can be cut to `n` bytes: no character is cut in two.
pub open spec fn cuttable(text: Seq<char>, n: nat) -> bool {
    let bytes = utf8::encode_utf8(text);
    n < bytes.len() ==> utf8::is_char_boundary(bytes, n as int)
}

/// Tells whether a text can be cut to `n` bytes.
pub fn can_cut(text: &str, n: usize) -> (r: bool)
    ensures
        r == cuttable(text@, n as nat),
{
    n >= text.as_bytes().len() || text.is_char_boundary(n)
}

fn cut_text(text: &str, n: usize) -> (r: String)
    requires
        cuttable(text@, n as nat),
    ensures
        r@ == cut(text@, n as nat),
{
    if n < text.as_bytes().len() {
        let part = text.split_at(n).0;
        proof {
            utf8::encode_utf8_decode_utf8(part@);
        }
        part.to_owned()
    } else {
        text.to_owned()
    }
}

/// A text that was cut takes `n` bytes, or all that it had where that is less, and is
/// the beginning of the text.
pub proof fn law_cut(text: Seq<char>, n: nat)
    requires
        cuttable(text, n),
    ensures
        ({
            let all = utf8::encode_utf8(text).len();
            utf8::encode_utf8(cut(text, n)).len() == if n < all {
                n
            } else {
                all
            }
        }),
        cut(text, n).is_prefix_of(text),
{
    let bytes = utf8::encode_utf8(text);
    utf8::encode_utf8_valid_utf8(text);
    utf8::encode_utf8_decode_utf8(text);
    if n < bytes.len() {
        utf8::valid_utf8_split(bytes, n as int);
        utf8::decode_utf8_split(bytes, n as int);
        utf8::decode_utf8_encode_utf8(bytes.subrange(0, n as int));
    }
}

/// The look of the bar for `total` downloads on a terminal of `cols` columns. What is
/// not needed for the bar and the two numbers is room for the text.
pub open spec fn bar(cols: nat, total: nat) -> ProgressView {
    let digits = text::decimal(total).len();
    let width = (cols - (80 - 2 * digits)) as nat;
    ProgressView::Bar {
        template: " ({pos:>"@ + text::decimal(digits) + "}/{len}) {prefix:!} [{wide_bar}]"@,
        chars: "-> "@,
        prefix: text::spaces(if width < 100 {
            width
        } else {
            100
        }),
        width,
    }
}

/// A run of downloads of some bases: told by lines on a narrow terminal, by a bar on a
/// wide one.
pub open spec fn download_of(config: ConfigView, bases: Seq<Seq<AurPackageView>>) -> DownloadView {
    let heading = "\n"@ + style::heading(
        config.color.action,
        config.color.bold,
        "Downloading pkgbuilds..."@,
    );
    let cols = match config.cols {
        Some(cols) => cols as nat,
        None => 0,
    };
    DownloadView {
        heading,
        notice: if bases.len() == 0 {
            Some(" pkgbuilds up to date"@)
        } else {
            None
        },
        bases,
        progress: if bases.len() == 0 {
            ProgressView::Nothing
        } else if cols < 80 {
            ProgressView::Lines
        } else {
            bar(cols, bases.len())
        },
    }
}

fn copy_bases(bases: &Bases) -> (r: Bases)
    ensures
        r@ == bases@,
{
    let mut out: Vec<Base> = Vec::new();
    assert(text::views(out@) =~= bases@.take(0));
    for i in 0..bases.bases.len()
        invariant
            text::views(out@) == bases@.take(i as int),
    {
        let base = bases.bases[i].clone();
        proof {
            text::lemma_views_push(out@, base);
            text::lemma_take_push(bases@, i as int);
        }
        out.push(base);
    }
    assert(bases@.take(bases.bases@.len() as int) =~= bases@);
    Bases { bases: out }
}

/// Decides how the files of some bases are downloaded.
pub fn aur_pkgbuilds(config: &Config, bases: &Bases) -> (r: Download)
    requires
        bases::filled(bases@),
    ensures
        r@ == download_of(config@, bases@),
{
    let mut heading = "\n".to_owned();
    heading.append(
        style::heading_text(
            config.color.action,
            config.color.bold,
            "Downloading pkgbuilds...",
        ).as_str(),
    );
    let bases = copy_bases(bases);
    if bases.bases.len() == 0 {
        return Download {
            heading,
            notice: Some(" pkgbuilds up to date".to_owned()),
            bases,
            progress: Progress::Nothing,
        };
    }
    let cols: usize = match config.cols {
        Some(cols) => cols,
        None => 0,
    };
    if cols < 80 {
        return Download { heading, notice: None, bases, progress: Progress::Lines };
    }
    let total = text::length_text(bases.bases.len());
    proof {
        text::lemma_length_digits(bases.bases.len());
    }
    let digits: usize = total.as_str().unicode_len();
    let width: usize = cols - (80 - 2 * digits);
    let mut template = " ({pos:>".to_owned();
    template.append(text::length_text(digits).as_str());
    template.append("}/{len}) {prefix:!} [{wide_bar}]");
    let prefix = text::blank(if width < 100 {
        width
    } else {
        100
    });
    Download {
        heading,
        notice: None,
        bases,
        progress: Progress::Bar { template, chars: "-> ", prefix, width },
    }
}

/// The text before the bar while a base is downloaded, before it is cut.
pub open spec fn bar_text(base: Seq<AurPackageView>) -> Seq<char> {
    bases::base_text(base) + text::spaces(100)
}

impl DownloadView {
    /// The base of a name.
    pub open spec fn base(self, name: Seq<char>) -> Seq<AurPackageView> {
        self.bases[bases::place(self.bases, name)]
    }

    /// The line that tells that the `n`th base was downloaded, which has the name.
    pub open spec fn line(self, n: nat, name: Seq<char>) -> Seq<char> {
        download_line(n, self.bases.len(), bases::base_text(self.base(name)))
    }
}

impl Download {
    /// The names of the bases to download.
    pub fn names(&self) -> (r: Vec<String>)
        requires
            bases::filled(self@.bases),
        ensures
            text::views(r@) == bases::names_of(self@.bases),
    {
        self.bases.names()
    }

    /// Whether a base of the name is downloaded.
    pub fn has(&self, name: &str) -> (r: bool)
        requires
            bases::filled(self@.bases),
        ensures
            r == bases::has_base(self@.bases, name@),
    {
        self.bases.find(name).is_some()
    }

    fn find(&self, name: &str) -> (r: &Base)
        requires
            bases::filled(self@.bases),
            bases::has_base(self@.bases, name@),
        ensures
            r@ == self@.base(name@),
            r@.len() > 0,
    {
        let i = match self.bases.find(name) {
            Some(i) => i,
            None => 0,
        };
        assert(self@.bases[i as int] == self.bases.bases[i as int]@);
        &self.bases.bases[i]
    }

    /// The line that tells that the `n`th base was downloaded.
    pub fn line(&self, config: &Config, n: usize, name: &str) -> (r: String)
        requires
            bases::filled(self@.bases),
            bases::has_base(self@.bases, name@),
        ensures
            r@ == self@.line(n as nat, name@),
    {
        print_download(config, n, self.bases.bases.len(), self.find(name).text().as_str())
    }

    /// What stands before the bar when a base was downloaded, before it is cut to the
    /// room that there is.
    pub fn bar_text(&self, name: &str) -> (r: String)
        requires
            bases::filled(self@.bases),
            bases::has_base(self@.bases, name@),
        ensures
            r@ == bar_text(self@.base(name@)),
    {
        let mut out = self.find(name).text();
        out.append(text::blank(100).as_str());
        out
    }

    /// What stands before the bar when a base was downloaded.
    pub fn prefix(&self, name: &str) -> (r: String)
        requires
            bases::filled(self@.bases),
            bases::has_base(self@.bases, name@),
            self@.progress matches ProgressView::Bar { width, .. } && cuttable(
                bar_text(self@.base(name@)),
                width,
            ),
        ensures
            r@ == cut(bar_text(self@.base(name@)), self@.progress->width),
    {
        let text = self.bar_text(name);
        match &self.progress {
            Progress::Bar { width, .. } => cut_text(text.as_str(), *width),
            _ => text,
        }
    }
}

/// What has to be done next for a run of downloads.
#[derive(Clone, Copy, Debug, PartialEq, Eq, Structural)]
pub enum FetchStage {
    /// Download the bases.
    Fetch,
    /// Merge what was downloaded.
    Merge,
    /// Nothing.
    Done,
}

/// A run of downloads under way.
pub struct Fetch {
    download: Download,
    /// What was downloaded and is to be merged.
    fetched: Vec<String>,
    stage: FetchStage,
}

#[verifier::ext_equal]
pub struct FetchView {
    pub download: DownloadView,
    pub fetched: Seq<Seq<char>>,
    pub stage: FetchStage,
}

impl View for Fetch {
    type V = FetchView;

    closed spec fn view(&self) -> FetchView {
        FetchView {
            download: self.download@,
            fetched: text::views(self.fetched@),
            stage: self.stage,
        }
    }
}

impl FetchView {
    /// What holds at every stage.
    pub open spec fn wf(self) -> bool {
        &&& bases::filled(self.download.bases)
        &&& self.stage == FetchStage::Fetch ==> self.fetched.len() == 0
        &&& self.stage != FetchStage::Done ==> self.download.bases.len() > 0
    }

    /// The bases were downloaded: what was fetched is merged.
    pub open spec fn fetched(self, names: Seq<Seq<char>>) -> FetchView {
        FetchView { fetched: names, stage: FetchStage::Merge, ..self }
    }

    /// What was fetched was merged.
    pub open spec fn merged(self) -> FetchView {
        FetchView { stage: FetchStage::Done, ..self }
    }

    /// How far the stage is from the end.
    pub open spec fn rank(self) -> int {
        match self.stage {
            FetchStage::Fetch => 2,
            FetchStage::Merge => 1,
            FetchStage::Done => 0,
        }
    }
}

/// A run of downloads before it begins; without bases there is nothing to do.
pub open spec fn fetch_of(download: DownloadView) -> FetchView {
    FetchView {
        download,
        fetched: Seq::empty(),
        stage: if download.bases.len() == 0 {
            FetchStage::Done
        } else {
            FetchStage::Fetch
        },
    }
}

impl Fetch {
    /// Starts a run of downloads.
    pub fn new(download: Download) -> (r: Fetch)
        requires
            bases::filled(download@.bases),
        ensures
            r@.wf(),
            r@ == fetch_of(download@),
    {
        let stage = if download.bases.bases.len() == 0 {
            FetchStage::Done
        } else {
            FetchStage::Fetch
        };
        let r = Fetch { download, fetched: Vec::new(), stage };
        assert(r@.fetched =~= Seq::<Seq<char>>::empty());
        r
    }

    /// What has to be done next.
    pub fn stage(&self) -> (r: FetchStage)
        ensures
            r == self@.stage,
    {
        self.stage
    }

    /// What is downloaded, and how that is told.
    pub fn download(&self) -> (r: &Download)
        requires
            self@.wf(),
        ensures
            r@ == self@.download,
            bases::filled(r@.bases),
    {
        &self.download
    }

    /// Reports that the bases were downloaded, and which of them are to be merged.
    pub fn fetched(&mut self, names: Vec<String>)
        requires
            old(self)@.wf(),
            old(self)@.stage == FetchStage::Fetch,
        ensures
            final(self)@.wf(),
            final(self)@ == old(self)@.fetched(text::views(names@)),
    {
        self.fetched = names;
        self.stage = FetchStage::Merge;
    }

    /// What is to be merged.
    pub fn to_merge(&self) -> (r: &Vec<String>)
        requires
            self@.stage == FetchStage::Merge,
        ensures
            text::views(r@) == self@.fetched,
    {
        &self.fetched
    }

    /// Reports that what was fetched was merged.
    pub fn merged(&mut self)
        requires
            old(self)@.wf(),
            old(self)@.stage == FetchStage::Merge,
        ensures
            final(self)@.wf(),
            final(self)@ == old(self)@.merged(),
    {
        self.stage = FetchStage::Done;
    }
}

/// A run with bases downloads them, then merges exactly what was fetched, then is done:
/// each is done once, and nothing is merged before a download has succeeded. A run without
/// bases does neither.
pub proof fn law_fetch_then_merge(download: DownloadView, names: Seq<Seq<char>>)
    ensures
        ({
            let s = fetch_of(download);
            &&& download.bases.len() == 0 ==> s.stage == FetchStage::Done
            &&& download.bases.len() > 0 ==> {
                &&& s.stage == FetchStage::Fetch
                &&& s.fetched(names).stage == FetchStage::Merge
                &&& s.fetched(names).fetched == names
                &&& s.fetched(names).merged().stage == FetchStage::Done
                &&& s.fetched(names).merged().download == download
            }
        }),
{
}

/// Every report brings the end of a run of downloads closer, so that nothing is done twice.
pub proof fn law_fetch_progress(s: FetchView, names: Seq<Seq<char>>)
    requires
        s.wf(),
    ensures
        s.rank() >= 0,
        s.stage == FetchStage::Fetch ==> s.fetched(names).rank() < s.rank(),
        s.stage == FetchStage::Merge ==> s.merged().rank() < s.rank(),
{
}

// ---- what has to be downloaded again ----

/// The test for a base that has to be downloaded, given whether it is newer than its
/// `.SRCINFO`: it has none, or it is newer.
pub open spec fn is_stale(known: Set<Seq<char>>) -> spec_fn((Seq<AurPackageView>, bool)) -> bool {
    |base: (Seq<AurPackageView>, bool)| !known.contains(bases::base_name(base.0)) || base.1
}

/// The bases that have to be downloaded.
pub open spec fn stale(
    bases: Seq<Seq<AurPackageView>>,
    known: Set<Seq<char>>,
    newer: Seq<bool>,
) -> Seq<Seq<AurPackageView>> {
    text::unpaired(text::paired(bases, newer).filter(is_stale(known)))
}

/// The bases that are downloaded: all of them where the settings say so, else those that
/// have to be.
pub open spec fn to_download(
    config: ConfigView,
    bases: Seq<Seq<AurPackageView>>,
    known: Set<Seq<char>>,
    newer: Seq<bool>,
) -> Seq<Seq<AurPackageView>> {
    if config.redownload == "all"@ {
        bases
    } else {
        stale(bases, known, newer)
    }
}

proof fn lemma_stale_push(
    bases: Seq<Seq<AurPackageView>>,
    known: Set<Seq<char>>,
    newer: Seq<bool>,
    n: int,
)
    requires
        0 <= n < bases.len(),
    ensures
        stale(bases.take(n + 1), known, newer) == (if is_stale(known)((bases[n], newer[n])) {
            stale(bases.take(n), known, newer).push(bases[n])
        } else {
            stale(bases.take(n), known, newer)
        }),
{
    text::lemma_paired_push(bases, newer, n, is_stale(known));
}

proof fn lemma_stale_none(
    bases: Seq<Seq<AurPackageView>>,
    known: Set<Seq<char>>,
    newer: Seq<bool>,
)
    ensures
        stale(bases.take(0), known, newer) == Seq::<Seq<AurPackageView>>::empty(),
{
    reveal(Seq::filter);
    assert(stale(bases.take(0), known, newer) =~= Seq::<Seq<AurPackageView>>::empty());
}

/// The version of a base and the version that its `.SRCINFO` gives, where it has one.
pub open spec fn versions_of(base: Seq<AurPackageView>, known: Map<Seq<char>, SrcInfo>) -> Option<
    (Seq<char>, Seq<char>),
> {
    let name = bases::base_name(base);
    if known.contains_key(name) {
        Some((base[0].version, known[name]@.version()))
    } else {
        None
    }
}

/// Pairs the version of each base with the version that its `.SRCINFO` gives, where it
/// has one: the pairs that have to be compared.
pub fn version_pairs(bases: &Bases, srcinfos: &Table<SrcInfo>) -> (r: Vec<
    Option<(String, String)>,
>)
    requires
        bases::filled(bases@),
        srcinfos.wf(),
    ensures
        r@.len() == bases@.len(),
        forall|i: int|
            0 <= i < r@.len() ==> (match #[trigger] r@[i] {
                Some(pair) => Some((pair.0@, pair.1@)),
                None => None,
            }) == versions_of(bases@[i], srcinfos@),
{
    let mut out: Vec<Option<(String, String)>> = Vec::new();
    for i in 0..bases.bases.len()
        invariant
            bases::filled(bases@),
            srcinfos.wf(),
            out@.len() == i,
            forall|j: int|
                0 <= j < i ==> (match #[trigger] out@[j] {
                    Some(pair) => Some((pair.0@, pair.1@)),
                    None => None,
                }) == versions_of(bases@[j], srcinfos@),
    {
        let base = &bases.bases[i];
        assert(bases@[i as int] == base@);
        match srcinfos.get(base.package_base()) {
            Some(info) => out.push(Some((base.version().to_owned(), info.version()))),
            None => out.push(None),
        }
    }
    out
}

/// Decides which bases are downloaded, and how: all of them where the settings say so,
/// else those that have no `.SRCINFO` yet and those that are newer. `newer` says of each
/// base whether its version is newer than the one that its `.SRCINFO` gives.
pub fn new_aur_pkgbuilds(
    config: &Config,
    bases: &Bases,
    srcinfos: &Table<SrcInfo>,
    newer: &Vec<bool>,
) -> (r: Download)
    requires
        bases::filled(bases@),
        srcinfos.wf(),
        newer@.len() == bases@.len(),
    ensures
        bases::filled(r@.bases),
        r@ == download_of(config@, to_download(config@, bases@, srcinfos@.dom(), newer@)),
{
    if text::same(config.redownload.as_str(), "all") {
        return aur_pkgbuilds(config, bases);
    }
    let ghost known = srcinfos@.dom();
    let mut pkgs: Vec<Base> = Vec::new();
    proof {
        lemma_stale_none(bases@, known, newer@);
    }
    assert(text::views(pkgs@) =~= stale(bases@.take(0), known, newer@));
    for i in 0..bases.bases.len()
        invariant
            bases::filled(bases@),
            srcinfos.wf(),
            known == srcinfos@.dom(),
            newer@.len() == bases@.len(),
            text::views(pkgs@) == stale(bases@.take(i as int), known, newer@),
            bases::filled(text::views(pkgs@)),
    {
        let base = &bases.bases[i];
        assert(bases@[i as int] == base@);
        proof {
            lemma_stale_push(bases@, known, newer@, i as int);
        }
        if !srcinfos.contains_key(base.package_base()) || newer[i] {
            let base = base.clone();
            proof {
                text::lemma_views_push(pkgs@, base);
            }
            pkgs.push(base);
        }
    }
    assert(bases@.take(bases.bases@.len() as int) =~= bases@);
    aur_pkgbuilds(config, &Bases { bases: pkgs })
}

/// A base without a `.SRCINFO` is always downloaded.
pub proof fn law_unknown_is_downloaded(
    bases: Seq<Seq<AurPackageView>>,
    known: Set<Seq<char>>,
    newer: Seq<bool>,
    i: int,
)
    requires
        newer.len() == bases.len(),
        0 <= i < bases.len(),
        !known.contains(bases::base_name(bases[i])),
    ensures
        stale(bases, known, newer).contains(bases[i]),
{
    lemma_stale(bases, known, newer, bases.len() as int, i);
    assert(bases.take(bases.len() as int) =~= bases);
}

proof fn lemma_stale(
    bases: Seq<Seq<AurPackageView>>,
    known: Set<Seq<char>>,
    newer: Seq<bool>,
    n: int,
    i: int,
)
    requires
        newer.len() == bases.len(),
        0 <= i < n <= bases.len(),
        !known.contains(bases::base_name(bases[i])),
    ensures
        stale(bases.take(n), known, newer).contains(bases[i]),
    decreases n,
{
    lemma_stale_push(bases, known, newer, n - 1);
    let more = stale(bases.take(n), known, newer);
    let less = stale(bases.take(n - 1), known, newer);
    if i < n - 1 {
        lemma_stale(bases, known, newer, n - 1, i);
        let k = choose|k: int| 0 <= k < less.len() && less[k] == bases[i];
        assert(more[k] == bases[i]);
    } else {
        assert(more[less.len() as int] == bases[i]);
    }
}

// ---- fetching targets ----

/// What has to be done next for fetching targets.
#[derive(Clone, Copy, Debug, PartialEq, Eq, Structural)]
pub enum GetStage {
    /// Fetch the targets from the repositories.
    Repo,
    /// Ask the AUR about its targets.
    Query,
    /// Download the files of the AUR's targets.
    Download,
    /// Nothing.
    Done,
}

/// A run over targets of the repositories and the AUR.
pub struct Get<'a> {
    config: &'a Config,
    /// Whether there are targets from the AUR.
    aur: bool,
    code: i32,
    stage: GetStage,
}

#[verifier::ext_equal]
pub struct GetView {
    pub config: ConfigView,
    pub aur: bool,
    pub code: i32,
    pub stage: GetStage,
}

impl<'a> View for Get<'a> {
    type V = GetView;

    closed spec fn view(&self) -> GetView {
        GetView { config: self.config@, aur: self.aur, code: self.code, stage: self.stage }
    }
}

impl GetView {
    /// After the repositories, the AUR is asked where it has targets.
    pub open spec fn after_repo(self) -> GetView {
        GetView {
            stage: if self.aur {
                GetStage::Query
            } else {
                GetStage::Done
            },
            ..self
        }
    }

    /// The repositories have been dealt with, with some result.
    pub open spec fn repo_done(self, code: i32) -> GetView {
        GetView { code, ..self }.after_repo()
    }

    /// The AUR has answered.
    pub open spec fn queried(self) -> GetView {
        GetView { stage: GetStage::Download, ..self }
    }

    /// The files were downloaded.
    pub open spec fn downloaded(self) -> GetView {
        GetView { stage: GetStage::Done, ..self }
    }
}

/// The beginning: the repositories come first, where they have targets.
pub open spec fn get_start(
    config: ConfigView,
    repo: Seq<Seq<char>>,
    aur: Seq<Seq<char>>,
) -> GetView {
    let start = GetView { config, aur: aur.len() > 0, code: 0, stage: GetStage::Repo };
    if repo.len() > 0 {
        start
    } else {
        start.after_repo()
    }
}

/// The names that the AUR does not know, and the download of the rest.
pub open spec fn get_download(config: ConfigView, warnings: WarningsView) -> (
    Option<ListingView>,
    DownloadView,
) {
    (
        warnings.missing_listing(config.color, config.cols),
        download_of(config, bases::grouped(warnings.pkgs)),
    )
}

/// Starts fetching the targets, which were sorted into those of the repositories and
/// those of the AUR.
pub fn getpkgbuilds<'a>(config: &'a Config, repo: &Vec<String>, aur: &Vec<String>) -> (r: Get<'a>)
    ensures
        r@ == get_start(config@, text::views(repo@), text::views(aur@)),
{
    let mut r = Get { config, aur: aur.len() > 0, code: 0, stage: GetStage::Repo };
    if repo.len() == 0 {
        r.after_repo();
    }
    r
}

impl<'a> Get<'a> {
    /// What has to be done next.
    pub fn stage(&self) -> (r: GetStage)
        ensures
            r == self@.stage,
    {
        self.stage
    }

    fn after_repo(&mut self)
        ensures
            final(self)@ == old(self)@.after_repo(),
    {
        if self.aur {
            self.stage = GetStage::Query;
        } else {
            self.stage = GetStage::Done;
        }
    }

    /// Reports the result of fetching the targets from the repositories.
    pub fn repo_done(&mut self, code: i32)
        requires
            old(self)@.stage == GetStage::Repo,
        ensures
            final(self)@ == old(self)@.repo_done(code),
    {
        self.code = code;
        self.after_repo();
    }

    /// The heading under which the AUR is asked.
    pub fn heading(&self) -> (r: String)
        ensures
            r@ == style::heading(
                self@.config.color.action,
                self@.config.color.bold,
                "Querying AUR..."@,
            ),
    {
        style::heading_text(
            self.config.color.action,
            self.config.color.bold,
            "Querying AUR...",
        )
    }

    /// Reports what the AUR said. Gives the names that it does not know, and the download
    /// of the rest; names that it does not know are no reason for another result.
    pub fn queried(&mut self, warnings: Warnings) -> (r: (Option<Listing>, Download))
        requires
            old(self)@.stage == GetStage::Query,
        ensures
            final(self)@ == old(self)@.queried(),
            (text::option_view(r.0), r.1@) == get_download(old(self)@.config, warnings@),
            bases::filled(r.1@.bases),
    {
        self.stage = GetStage::Download;
        let missing = warnings.missing(self.config.color, self.config.cols);
        let bases = Bases::from_iter(warnings.pkgs);
        (missing, aur_pkgbuilds(self.config, &bases))
    }

    /// Reports that the files were downloaded.
    pub fn downloaded(&mut self)
        requires
            old(self)@.stage == GetStage::Download,
        ensures
            final(self)@ == old(self)@.downloaded(),
    {
        self.stage = GetStage::Done;
    }

    /// The result of the whole.
    pub fn code(&self) -> (r: i32)
        ensures
            r == self@.code,
    {
        self.code
    }
}

// ---- showing targets ----

/// The files to show.
pub struct Show {
    pub missing: Option<Listing>,
    /// The names of the bases whose files are shown, in order.
    pub bases: Vec<String>,
    /// The result of the whole.
    pub code: i32,
}

/// The names of the bases whose files are shown, given what the AUR said.
pub open spec fn shown_bases(warnings: WarningsView) -> Seq<Seq<char>> {
    bases::names_of(bases::grouped(warnings.pkgs))
}

/// The result of showing files: a failure where a name is not known.
pub open spec fn show_code(warnings: WarningsView) -> i32 {
    if warnings.missing.len() == 0 {
        0
    } else {
        1
    }
}

/// Decides which files are shown, given what the AUR said about the targets.
pub fn show_pkgbuilds(config: &Config, warnings: Warnings) -> (r: Show)
    ensures
        text::option_view(r.missing) == warnings@.missing_listing(config@.color, config@.cols),
        text::views(r.bases@) == shown_bases(warnings@),
        r.code == show_code(warnings@),
{
    let missing = warnings.missing(config.color, config.cols);
    let code: i32 = if warnings.missing.len() == 0 {
        0
    } else {
        1
    };
    let bases = Bases::from_iter(warnings.pkgs);
    Show { missing, bases: bases.names(), code }
}

/// What `reqwest`'s `Url` makes of an address and a path relative to it, or the message
/// of its error.
pub uninterp spec fn address(base: Seq<char>, path: Seq<char>) -> Result<Seq<char>, Seq<char>>;

/// `reqwest`'s `Url::join`, on an address that `Url::parse` reads: the address with the
/// path, or the message of the error. What comes out is not stated.
#[verifier::external_body]
fn join(base: &str, path: &str) -> (r: Result<String, String>)
    ensures
        match r {
            Ok(url) => address(base@, path@) == Ok::<Seq<char>, Seq<char>>(url@),
            Err(cause) => address(base@, path@) == Err::<Seq<char>, Seq<char>>(cause@),
        },
{
    match reqwest::Url::parse(base).and_then(|url| url.join(path)) {
        Ok(url) => Ok(url.to_string()),
        Err(error) => Err(error.to_string()),
    }
}

/// The place of a base's file on the AUR's server.
pub open spec fn pkgbuild_path(base: Seq<char>) -> Seq<char> {
    "cgit/aur.git/plain/PKGBUILD?h="@ + base
}

/// The address of a base's file.
pub fn pkgbuild_url(config: &Config, base: &str) -> (r: Result<String, Error>)
    ensures
        match r {
            Ok(url) => address(config@.aur_url, pkgbuild_path(base@)) == Ok::<Seq<char>, Seq<char>>(
                url@,
            ),
            Err(e) => address(config@.aur_url, pkgbuild_path(base@)) matches Err(cause) && e@
                == ErrorView::Address(cause),
        },
{
    let mut path = "cgit/aur.git/plain/PKGBUILD?h=".to_owned();
    path.append(base);
    match join(config.aur_url.as_str(), path.as_str()) {
        Ok(url) => Ok(url),
        Err(cause) => Err(Error::Address(cause)),
    }
}

/// What is told where a server could not be asked for a base's file.
pub fn failed_request(base: &str, url: &str) -> (r: Error)
    ensures
        r@ == (ErrorView::Request { base: base@, url: url@ }),
{
    Error::Request { base: base.to_owned(), url: url.to_owned() }
}

/// What is told where a server refuses to hand a base's file out.
pub open spec fn refusal(
    base: Seq<char>,
    url: Seq<char>,
    success: bool,
    status: Seq<char>,
) -> Option<ErrorView> {
    if success {
        None
    } else {
        Some(ErrorView::Refused { base, url, status })
    }
}

/// Decides whether a server's reply is shown; `status` is how the reply begins, and
/// `success` whether that is a success.
pub fn check_reply(base: &str, url: &str, success: bool, status: &str) -> (r: Result<(), Error>)
    ensures
        match r {
            Ok(()) => refusal(base@, url@, success, status@) is None,
            Err(e) => refusal(base@, url@, success, status@) == Some(e@),
        },
{
    if success {
        Ok(())
    } else {
        Err(
            Error::Refused {
                base: base.to_owned(),
                url: url.to_owned(),
                status: status.to_owned(),
            },
        )
    }
}

// ---- what the runs are for ----

/// A base is downloaded again exactly where its `.SRCINFO` is not known or it is newer than
/// that, however many packages it has.
pub proof fn law_stale(
    bases: Seq<Seq<AurPackageView>>,
    known: Set<Seq<char>>,
    newer: Seq<bool>,
    base: Seq<AurPackageView>,
)
    requires
        newer.len() == bases.len(),
    ensures
        stale(bases, known, newer).contains(base) <==> exists|i: int|
            0 <= i < bases.len() && #[trigger] bases[i] == base && (newer[i] || !known.contains(
                bases[i][0].package_base,
            )),
{
    text::lemma_paired_item(bases, newer, is_stale(known), base);
    if exists|i: int|
        0 <= i < bases.len() && #[trigger] bases[i] == base && (newer[i] || !known.contains(
            bases[i][0].package_base,
        )) {
        let i = choose|i: int|
            0 <= i < bases.len() && #[trigger] bases[i] == base && (newer[i] || !known.contains(
                bases[i][0].package_base,
            ));
        assert(bases[i] == base && is_stale(known)((bases[i], newer[i])));
    }
}

/// The bases to download keep their order, and none comes twice: of two runs of bases each
/// is looked through by itself.
pub proof fn law_stale_in_order(
    bases: (Seq<Seq<AurPackageView>>, Seq<Seq<AurPackageView>>),
    known: Set<Seq<char>>,
    newer: (Seq<bool>, Seq<bool>),
)
    requires
        newer.0.len() == bases.0.len(),
        newer.1.len() == bases.1.len(),
    ensures
        stale(bases.0 + bases.1, known, newer.0 + newer.1) == stale(bases.0, known, newer.0)
            + stale(bases.1, known, newer.1),
        stale(bases.0, known, newer.0).len() <= bases.0.len(),
{
    text::lemma_paired_add(bases, newer, is_stale(known));
    lemma_no_more(text::paired(bases.0, newer.0), is_stale(known));
}

proof fn lemma_no_more<T>(items: Seq<T>, keep: spec_fn(T) -> bool)
    ensures
        items.filter(keep).len() <= items.len(),
    decreases items.len(),
{
    reveal(Seq::filter);
    if items.len() > 0 {
        lemma_no_more(items.drop_last(), keep);
    }
}

/// What is downloaded: every base where the settings say so, and otherwise exactly the
/// bases whose `.SRCINFO` is not known and those that are newer than theirs. Each of them
/// is told to be downloaded, and nothing else is.
pub proof fn law_new_aur_pkgbuilds(
    config: ConfigView,
    bases: Seq<Seq<AurPackageView>>,
    known: Set<Seq<char>>,
    newer: Seq<bool>,
    base: Seq<AurPackageView>,
)
    requires
        newer.len() == bases.len(),
    ensures
        ({
            let run = download_of(config, to_download(config, bases, known, newer));
            &&& config.redownload == "all"@ ==> run.bases == bases
            &&& config.redownload != "all"@ ==> (run.bases.contains(base) <==> exists|i: int|
                0 <= i < bases.len() && #[trigger] bases[i] == base && (newer[i]
                    || !known.contains(bases[i][0].package_base)))
            &&& run.notice is Some <==> run.bases.len() == 0
        }),
{
    law_stale(bases, known, newer, base);
}

/// A run downloads exactly the bases that it was asked for. That everything is up to date
/// is told exactly where there is none. Otherwise each download is told on a line of its
/// own, unless the terminal is known to be wide enough for a bar: then the bar, the two
/// numbers and the room for the text fill the terminal.
pub proof fn law_download_told(config: ConfigView, bases: Seq<Seq<AurPackageView>>)
    ensures
        ({
            let run = download_of(config, bases);
            let digits = text::decimal(bases.len()).len();
            let wide = config.cols is Some && config.cols->0 >= 80;
            &&& run.bases == bases
            &&& run.notice is Some <==> bases.len() == 0
            &&& run.progress is Nothing <==> bases.len() == 0
            &&& run.progress is Lines <==> bases.len() > 0 && !wide
            &&& run.progress is Bar <==> bases.len() > 0 && wide
            &&& run.progress matches ProgressView::Bar { template, chars, prefix, width } ==> {
                &&& 2 * digits <= 80 ==> width + 80 == config.cols->0 + 2 * digits
                &&& prefix.len() <= width && prefix.len() <= 100
                &&& prefix.len() == width || prefix.len() == 100
                &&& forall|i: int| 0 <= i < prefix.len() ==> #[trigger] prefix[i] == ' '
                &&& chars.len() == 3
                &&& template.subrange(8, 8 + text::decimal(digits).len() as int) == text::decimal(
                    digits,
                )
            }
        }),
{
    reveal_strlit("-> ");
    reveal_strlit(" ({pos:>");
    let digits = text::decimal(bases.len()).len();
    if let ProgressView::Bar { template, chars, prefix, width } = download_of(
        config,
        bases,
    ).progress {
        assert(template.subrange(8, 8 + text::decimal(digits).len() as int) =~= text::decimal(
            digits,
        ));
    }
}

/// A download is told with the base of the name that was downloaded.
pub proof fn law_base_of_name(download: DownloadView, name: Seq<char>)
    requires
        bases::has_base(download.bases, name),
    ensures
        download.base(name)[0].package_base == name,
        download.bases.contains(download.base(name)),
{
    let i = bases::place(download.bases, name);
    assert(bases::first_named(download.bases, name, i));
    assert(download.bases[i] == download.base(name));
}

/// Without `asp` nothing of the repositories is fetched, and that is told and is a failure.
/// With it, exactly the packages that are known are fetched and exactly the others are told
/// to be missing, which is a failure where there is one.
pub proof fn law_repo_plan(
    config: ConfigView,
    pkgs: Seq<Seq<char>>,
    asp_runs: bool,
    present: Seq<bool>,
    dir: Seq<Seq<char>>,
    pkg: Seq<char>,
)
    requires
        asp_runs ==> present.len() == pkgs.len(),
    ensures
        ({
            let plan = repo_plan(config, pkgs, asp_runs, present, dir);
            let gone = exists|i: int| 0 <= i < present.len() && !(#[trigger] present[i]);
            &&& !asp_runs ==> plan.complaint is Some && plan.downloads.len() == 0 && plan.code == 1
                && plan.missing is None
            &&& asp_runs ==> plan.complaint is None
            &&& asp_runs ==> (plan.code == 0 || plan.code == 1)
            &&& asp_runs ==> (plan.code == 1 <==> plan.missing is Some)
            &&& asp_runs ==> (plan.missing is Some <==> gone)
            &&& asp_runs && plan.missing is Some ==> (plan.missing->0.items.contains(pkg)
                <==> exists|i: int| 0 <= i < pkgs.len() && #[trigger] pkgs[i] == pkg && !present[i])
            &&& asp_runs ==> ((exists|k: int|
                0 <= k < plan.downloads.len() && (#[trigger] plan.downloads[k]).pkg == pkg)
                <==> exists|i: int| 0 <= i < pkgs.len() && #[trigger] pkgs[i] == pkg && present[i])
            &&& forall|k: int|
                0 <= k < plan.downloads.len() ==> {
                    let d = #[trigger] plan.downloads[k];
                    &&& d.action == (if dir.contains(d.pkg) {
                        "update"@
                    } else {
                        "export"@
                    })
                    &&& d.line == download_line((k + 1) as nat, pkgs.len(), d.pkg)
                }
        }),
{
    if asp_runs {
        let plan = repo_plan(config, pkgs, asp_runs, present, dir);
        let missing = text::marked(pkgs, present, false);
        let ok = text::marked(pkgs, present, true);
        text::law_marked(pkgs, present, false, pkg);
        text::law_marked(pkgs, present, true, pkg);
        if missing.len() > 0 {
            text::law_marked(pkgs, present, false, missing[0]);
            assert(missing.contains(missing[0]));
            let i = choose|i: int|
                0 <= i < pkgs.len() && #[trigger] pkgs[i] == missing[0] && present[i] == false;
            assert(!present[i]);
        }
        if exists|i: int| 0 <= i < present.len() && !(#[trigger] present[i]) {
            let i = choose|i: int| 0 <= i < present.len() && !(#[trigger] present[i]);
            text::law_marked(pkgs, present, false, pkgs[i]);
            assert(missing.contains(pkgs[i]));
        }
        assert(forall|k: int|
            0 <= k < ok.len() ==> (#[trigger] plan.downloads[k]).pkg == ok[k]);
        if exists|k: int| 0 <= k < plan.downloads.len() && (#[trigger] plan.downloads[k]).pkg == pkg {
            let k = choose|k: int|
                0 <= k < plan.downloads.len() && (#[trigger] plan.downloads[k]).pkg == pkg;
            assert(ok[k] == pkg);
            assert(ok.contains(pkg));
        }
        if ok.contains(pkg) {
            let k = choose|k: int| 0 <= k < ok.len() && ok[k] == pkg;
            assert(plan.downloads[k].pkg == pkg);
        }
    }
}

/// Fetching targets goes to the repositories where they have targets, then to the AUR where
/// it has; then the files are downloaded and it is over. The result is what the
/// repositories came to, and success without them.
pub proof fn law_fetching_targets(
    config: ConfigView,
    repo: Seq<Seq<char>>,
    aur: Seq<Seq<char>>,
    code: i32,
)
    ensures
        ({
            let s = get_start(config, repo, aur);
            let after = s.repo_done(code);
            &&& s.stage == GetStage::Repo <==> repo.len() > 0
            &&& s.stage == GetStage::Query <==> repo.len() == 0 && aur.len() > 0
            &&& s.stage == GetStage::Done <==> repo.len() == 0 && aur.len() == 0
            &&& s.code == 0 && s.config == config
            &&& after.stage == GetStage::Query <==> aur.len() > 0
            &&& after.stage == GetStage::Done <==> aur.len() == 0
            &&& after.code == code && after.config == config
            &&& after.queried().stage == GetStage::Download && after.queried().code == code
            &&& after.queried().downloaded().stage == GetStage::Done
            &&& after.queried().downloaded().code == code
        }),
{
}

/// Exactly the packages that the AUR gave are downloaded, by their bases, and exactly the
/// names that it does not know are told.
pub proof fn law_get_download(config: ConfigView, warnings: WarningsView, i: int)
    ensures
        ({
            let (missing, run) = get_download(config, warnings);
            &&& missing is Some <==> warnings.missing.len() > 0
            &&& missing matches Some(list) ==> list.items == warnings.missing
            &&& 0 <= i < warnings.pkgs.len() ==> bases::names_of(run.bases).contains(
                warnings.pkgs[i].package_base,
            )
            &&& bases::tidy(run.bases)
            &&& forall|k: int|
                0 <= k < run.bases.len() ==> #[trigger] run.bases[k] == warnings.pkgs.filter(
                    bases::belongs(run.bases[k][0].package_base),
                )
        }),
{
    bases::law_grouping(warnings.pkgs);
}

/// The files of exactly the bases of the packages that the AUR gave are shown, each once,
/// in the order in which they first come up; that a name is not known is a failure.
pub proof fn law_show(warnings: WarningsView, name: Seq<char>)
    ensures
        shown_bases(warnings).contains(name) <==> exists|i: int|
            0 <= i < warnings.pkgs.len() && (#[trigger] warnings.pkgs[i]).package_base == name,
        shown_bases(warnings).no_duplicates(),
        show_code(warnings) == 0 <==> warnings.missing.len() == 0,
        show_code(warnings) == 0 || show_code(warnings) == 1,
{
    let bases = bases::grouped(warnings.pkgs);
    let names = shown_bases(warnings);
    bases::law_grouping(warnings.pkgs);
    if names.contains(name) {
        let k = choose|k: int| 0 <= k < names.len() && names[k] == name;
        let test = bases::belongs(bases[k][0].package_base);
        text::lemma_filter_item(warnings.pkgs, test, bases[k][0]);
        assert(bases[k].contains(bases[k][0]));
        let i = choose|i: int| 0 <= i < warnings.pkgs.len() && warnings.pkgs[i] == bases[k][0];
        assert(warnings.pkgs[i].package_base == name);
    }
    assert forall|a: int, b: int|
        0 <= a < names.len() && 0 <= b < names.len() && a != b implies names[a] != names[b] by {
        assert(bases::base_name(bases[a]) != bases::base_name(bases[b]));
    }
}

/// The place of a base's file ends in the name of the base, so that different bases have
/// different files.
pub proof fn law_pkgbuild_path(a: Seq<char>, b: Seq<char>)
    ensures
        pkgbuild_path(a).len() == "cgit/aur.git/plain/PKGBUILD?h="@.len() + a.len(),
        pkgbuild_path(a).skip(pkgbuild_path(a).len() - a.len()) == a,
        a != b ==> pkgbuild_path(a) != pkgbuild_path(b),
{
    let n = "cgit/aur.git/plain/PKGBUILD?h="@.len() as int;
    assert(pkgbuild_path(a).skip(n) =~= a);
    assert(pkgbuild_path(b).skip(n) =~= b);
}

/// Merging and fetching keep what is downloaded.
pub proof fn law_fetch_keeps_download(s: FetchView, names: Seq<Seq<char>>)
    ensures
        s.fetched(names).download == s.download && s.merged().download == s.download,
        s.merged().fetched == s.fetched,
        s.fetched(names).fetched == names,
{
}

/// The line of a download tells its number, in the room that the total takes, and the
/// total, and then the name.
pub proof fn law_download_line(n: nat, total: nat, pkg: Seq<char>)
    requires
        n <= total,
    ensures
        ({
            let digits = text::decimal(total).len() as int;
            let own = text::decimal(n).len() as int;
            let line = download_line(n, total, pkg);
            &&& own <= digits
            &&& line.subrange(2 + digits - own, 2 + digits) == text::decimal(n)
            &&& forall|i: int| 2 <= i < 2 + digits - own ==> #[trigger] line[i] == ' '
            &&& line[2 + digits] == '/'
            &&& line.subrange(3 + digits, 3 + 2 * digits) == text::decimal(total)
            &&& line.skip(line.len() - pkg.len()) == pkg
        }),
{
    reveal_strlit(" (");
    reveal_strlit("/");
    reveal_strlit(") downloading: ");
    text::lemma_decimal_monotonic(n, total);
    let digits = text::decimal(total).len() as int;
    let own = text::decimal(n).len() as int;
    let line = download_line(n, total, pkg);
    let number = text::right_aligned(text::decimal(n), digits as nat);
    text::law_right_aligned(text::decimal(n), digits as nat);
    assert(line.subrange(2, 2 + digits) =~= number);
    assert(line.subrange(2 + digits - own, 2 + digits) =~= text::decimal(n));
    assert forall|i: int| 2 <= i < 2 + digits - own implies #[trigger] line[i] == ' ' by {
        assert(line[i] == number[i - 2]);
    }
    assert(line.subrange(3 + digits, 3 + 2 * digits) =~= text::decimal(total));
    assert(line.skip(line.len() - pkg.len()) =~= pkg);
}

/// The text before the bar is the base as the user sees it, and spaces behind it.
pub proof fn law_bar_text(base: Seq<AurPackageView>)
    ensures
        bases::base_text(base).is_prefix_of(bar_text(base)),
        bar_text(base).len() == bases::base_text(base).len() + 100,
        forall|i: int|
            bases::base_text(base).len() <= i < bar_text(base).len() ==> #[trigger] bar_text(base)[i]
                == ' ',
{
    let text = bases::base_text(base);
    assert(bar_text(base).take(text.len() as int) =~= text);
}

/// A reply is shown exactly where it is a success; what a refusal tells begins with the base
/// and ends in how the reply began.
pub proof fn law_refusal(base: Seq<char>, url: Seq<char>, success: bool, status: Seq<char>)
    ensures
        refusal(base, url, success, status) is None <==> success,
        refusal(base, url, success, status) matches Some(error) ==> {
            let told = error.text();
            &&& base.is_prefix_of(told)
            &&& told.skip(told.len() - status.len()) == status
            &&& told == base + ": "@ + url + ": "@ + status
        },
{
    let told = base + ": "@ + url + ": "@ + status;
    assert(told.take(base.len() as int) =~= base);
    assert(told.skip(told.len() - status.len()) =~= status);
}

/// What is told of a download ends in the base of the name, as the user is to see it, and
/// counts against all bases of the run.
pub proof fn law_line_of_name(download: DownloadView, n: nat, name: Seq<char>)
    requires
        n <= download.bases.len(),
        bases::has_base(download.bases, name),
    ensures
        ({
            let line = download.line(n, name);
            let at = bases::place(download.bases, name);
            let shown = bases::base_text(download.bases[at]);
            let digits = text::decimal(download.bases.len()).len() as int;
            &&& download.bases[at][0].package_base == name
            &&& line.skip(line.len() - shown.len()) == shown
            &&& line.subrange(3 + digits, 3 + 2 * digits) == text::decimal(download.bases.len())
        }),
{
    law_base_of_name(download, name);
    law_download_line(n, download.bases.len(), bases::base_text(download.base(name)));
}

/// The versions that are compared are that of the base, which its first package gives, and
/// that of the `.SRCINFO` of the base's name; without one there is nothing to compare.
pub proof fn law_versions_of(base: Seq<AurPackageView>, known: Map<Seq<char>, SrcInfo>)
    ensures
        versions_of(base, known) is Some <==> known.contains_key(base[0].package_base),
        versions_of(base, known) matches Some(pair) ==> pair.0 == base[0].version && pair.1
            == known[base[0].package_base]@.version(),
{
}

} // verus!

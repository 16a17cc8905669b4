//! From what was resolved to what is built: the files are fetched, looked at and
//! approved, and the packages from the repositories are installed.
//!
//! [`Review`] says what has to be done next; whoever runs it does that and reports back.
use vstd::prelude::*;

use crate::actions;
use crate::args::Args;
use crate::args::ArgsView;
use crate::bases;
use crate::bases::Bases;
use crate::config::Config;
use crate::config::ConfigView;
use crate::download;
use crate::download::Download;
use crate::error::Error;
use crate::error::ErrorView;
use crate::package;
use crate::package::Actions;
use crate::package::ActionsView;
use crate::package::AurPackage;
use crate::package::AurPackageView;
use crate::package::BuildPackageView;
use crate::package::Conflict;
use crate::package::ConflictView;
use crate::pacman;
use crate::srcinfo;
use crate::srcinfo::SrcInfo;
use crate::srcinfo::SrcInfoView;
use crate::table;
use crate::table::Table;
use crate::text;

verus! {

/// What has to be done next.
#[derive(Clone, Copy, Debug, PartialEq, Eq, Structural)]
pub enum Stage {
    /// Ask whether the files are to be looked at.
    Review,
    /// Read the `.SRCINFO` of the base, where there is one.
    Srcinfo,
    /// Compare versions.
    Versions,
    /// Download files.
    Download,
    /// Read the `.SRCINFO` of the base, which has to be there by now.
    NewSrcinfo,
    /// Show the files and their changes to the user.
    View,
    /// Ask whether to go on.
    Proceed,
    /// Note that the files were seen.
    Seen,
    /// Ask about packages that are not made for this machine.
    Incompatible,
    /// Fetch the keys that the sources are signed with.
    Keys,
    /// Find out which packages from the repositories are installed.
    Repo,
    /// Install the packages from the repositories.
    RepoInstall,
    /// Mark new packages from the repositories as installed for others' sake.
    RepoDeps,
    /// Mark new packages from the repositories as installed for their own sake.
    RepoExplicit,
    /// Build.
    Build,
    /// Nothing.
    Done,
    /// Nothing: the user said no.
    Declined,
    /// Nothing: it failed.
    Failed,
}

/// A run over the bases to build.
pub struct Review<'a> {
    config: &'a Config,
    actions: &'a Actions,
    /// The names of the packages that are in a conflict.
    conflicts: Vec<String>,
    bases: Bases,
    /// What the `.SRCINFO` files say, by package base.
    srcinfos: Table<SrcInfo>,
    /// The base whose turn it is.
    at: usize,
    /// The packages from the repositories that are to be marked as installed for others'
    /// sake.
    deps: Vec<String>,
    /// The packages from the repositories that are to be marked as installed for their
    /// own sake.
    exp: Vec<String>,
    stage: Stage,
}

#[verifier::ext_equal]
pub struct ReviewView {
    pub config: ConfigView,
    pub actions: ActionsView,
    pub conflicts: Seq<Seq<char>>,
    pub bases: Seq<Seq<AurPackageView>>,
    pub srcinfos: Seq<(Seq<char>, SrcInfoView)>,
    pub at: nat,
    pub deps: Seq<Seq<char>>,
    pub exp: Seq<Seq<char>>,
    pub stage: Stage,
}

/// The rows of a table of `.SRCINFO` files.
pub open spec fn infos(rows: Seq<(Seq<char>, SrcInfo)>) -> Seq<(Seq<char>, SrcInfoView)> {
    rows.map_values(|row: (Seq<char>, SrcInfo)| (row.0, row.1@))
}

impl<'a> View for Review<'a> {
    type V = ReviewView;

    closed spec fn view(&self) -> ReviewView {
        ReviewView {
            config: self.config@,
            actions: self.actions@,
            conflicts: text::views(self.conflicts@),
            bases: self.bases@,
            srcinfos: infos(self.srcinfos.rows()),
            at: self.at as nat,
            deps: text::views(self.deps@),
            exp: text::views(self.exp@),
            stage: self.stage,
        }
    }
}

/// The packages to build.
pub open spec fn pkgs_of(build: Seq<BuildPackageView>) -> Seq<AurPackageView> {
    build.map_values(|pkg: BuildPackageView| pkg.pkg)
}

/// The packages that cannot be built for an architecture, file after file.
pub open spec fn incompatible_pkgs(
    srcinfos: Seq<(Seq<char>, SrcInfoView)>,
    arch: Seq<char>,
) -> Seq<Seq<char>>
    decreases srcinfos.len(),
{
    if srcinfos.len() == 0 {
        Seq::empty()
    } else {
        incompatible_pkgs(srcinfos.drop_last(), arch) + srcinfos.last().1.incompatible(arch)
    }
}

/// Each name on a line of its own.
pub open spec fn name_lines(names: Seq<Seq<char>>) -> Seq<char>
    decreases names.len(),
{
    if names.len() == 0 {
        Seq::empty()
    } else {
        name_lines(names.drop_last()) + (names.last() + "\n"@)
    }
}

impl ReviewView {
    /// The base whose turn it is.
    pub open spec fn base(self) -> Seq<AurPackageView> {
        self.bases[self.at as int]
    }

    /// Whether the `.SRCINFO` of a base was read.
    pub open spec fn known(self, i: int) -> bool {
        table::has_key(self.srcinfos, bases::base_name(self.bases[i]))
    }

    /// Whether the `.SRCINFO` of every base was read.
    pub open spec fn complete(self) -> bool {
        forall|i: int| 0 <= i < self.bases.len() ==> #[trigger] self.known(i)
    }

    /// Whether the files have been fetched and read.
    pub open spec fn fetched(self) -> bool {
        match self.stage {
            Stage::View | Stage::Proceed | Stage::Seen | Stage::Incompatible | Stage::Keys
            | Stage::Repo | Stage::RepoInstall | Stage::RepoDeps | Stage::RepoExplicit
            | Stage::Build | Stage::Done => true,
            _ => false,
        }
    }

    /// What holds at every stage.
    pub open spec fn wf(self) -> bool {
        &&& self.actions.wf()
        &&& bases::filled(self.bases)
        &&& table::unique(self.srcinfos)
        &&& self.at <= self.bases.len()
        &&& self.stage == Stage::Srcinfo ==> self.at < self.bases.len()
        &&& self.stage == Stage::NewSrcinfo ==> {
            &&& self.at < self.bases.len()
            &&& !self.known(self.at as int)
            &&& forall|i: int| 0 <= i < self.at ==> #[trigger] self.known(i)
        }
        &&& self.fetched() ==> self.complete()
        &&& self.stage == Stage::Repo || self.stage == Stage::RepoInstall
            ==> self.actions.install.len() > 0
        &&& self.stage == Stage::RepoDeps ==> self.deps.len() > 0
        &&& self.stage == Stage::RepoExplicit ==> self.exp.len() > 0
        &&& self.stage == Stage::Proceed ==> self.actions.install.len() == 0
        &&& self.stage == Stage::Keys ==> self.config.pgp_fetch
        &&& self.stage == Stage::Incompatible ==> self.incompatible().len() > 0
    }

    /// The packages that cannot be built for this machine.
    pub open spec fn incompatible(self) -> Seq<Seq<char>> {
        incompatible_pkgs(self.srcinfos, self.config.arch)
    }

    pub open spec fn at_stage(self, stage: Stage) -> ReviewView {
        ReviewView { stage, ..self }
    }

    /// The first pass over the `.SRCINFO` files goes on with the base at `at`.
    pub open spec fn first_pass(self, at: nat) -> ReviewView {
        ReviewView {
            at,
            stage: if at < self.bases.len() {
                Stage::Srcinfo
            } else {
                Stage::Versions
            },
            ..self
        }
    }

    /// The first base from `from` on whose `.SRCINFO` was not read.
    pub open spec fn next_unknown(self, from: nat) -> nat
        decreases self.bases.len() - from,
    {
        if from < self.bases.len() && self.known(from as int) {
            self.next_unknown(from + 1)
        } else {
            from
        }
    }

    /// The second pass goes on with the bases from `from` on.
    pub open spec fn second_pass(self, from: nat) -> ReviewView {
        let at = self.next_unknown(from);
        ReviewView {
            at,
            stage: if at < self.bases.len() {
                Stage::NewSrcinfo
            } else {
                Stage::View
            },
            ..self
        }
    }

    /// The keys are there: the packages from the repositories are next, then building.
    pub open spec fn after_keys(self) -> ReviewView {
        if self.actions.install.len() > 0 {
            self.at_stage(Stage::Repo)
        } else {
            self.at_stage(Stage::Build)
        }
    }

    /// It is known which packages from the repositories are installed: those that are not
    /// are marked once they are.
    pub open spec fn repo_known(self, installed: Seq<bool>) -> ReviewView {
        ReviewView {
            deps: pacman::fresh_names(self.actions.install, installed, false),
            exp: pacman::fresh_names(self.actions.install, installed, true),
            stage: Stage::RepoInstall,
            ..self
        }
    }

    pub open spec fn mark_exp(self) -> ReviewView {
        if self.exp.len() > 0 {
            self.at_stage(Stage::RepoExplicit)
        } else {
            self.at_stage(Stage::Build)
        }
    }

    pub open spec fn mark_deps(self) -> ReviewView {
        if self.deps.len() > 0 {
            self.at_stage(Stage::RepoDeps)
        } else {
            self.mark_exp()
        }
    }

    /// Every package can be built, or the user wants to try.
    pub open spec fn after_arch(self) -> ReviewView {
        if self.config.pgp_fetch {
            self.at_stage(Stage::Keys)
        } else {
            self.after_keys()
        }
    }

    /// Whether the stage is a question.
    pub open spec fn asking(self) -> bool {
        self.stage == Stage::Review || self.stage == Stage::Proceed || self.stage
            == Stage::Incompatible
    }

    /// The question was answered.
    pub open spec fn answered(self, yes: bool) -> ReviewView {
        if !yes {
            self.at_stage(Stage::Declined)
        } else {
            match self.stage {
                Stage::Review => self.first_pass(0),
                Stage::Proceed => self.at_stage(Stage::Seen),
                Stage::Incompatible => self.after_arch(),
                _ => self,
            }
        }
    }

    /// Whether a `.SRCINFO` is to be read.
    pub open spec fn reading(self) -> bool {
        self.stage == Stage::Srcinfo || self.stage == Stage::NewSrcinfo
    }

    /// What goes wrong with a `.SRCINFO`, given what it says where it is there: it cannot
    /// be read, or it is not there though the files were downloaded.
    pub open spec fn read_failure(
        self,
        info: Option<Result<SrcInfoView, Seq<char>>>,
    ) -> Option<ErrorView> {
        match info {
            Some(Ok(_)) => None,
            Some(Err(cause)) => Some(
                ErrorView::BadSrcinfo { base: bases::base_text(self.base()), cause },
            ),
            None => if self.stage == Stage::NewSrcinfo {
                Some(ErrorView::NoSrcinfo(bases::base_name(self.base())))
            } else {
                None
            },
        }
    }

    /// The `.SRCINFO` of the base was read, where it is there. In the first pass it counts
    /// for the base that it names itself, in the second for the base that it was read for.
    pub open spec fn parsed(self, info: Option<Result<SrcInfoView, Seq<char>>>) -> ReviewView {
        if self.read_failure(info) is Some {
            self.at_stage(Stage::Failed)
        } else {
            match info {
                Some(Ok(info)) => if self.stage == Stage::Srcinfo {
                    ReviewView {
                        srcinfos: table::inserted(self.srcinfos, info.pkgbase, info),
                        ..self
                    }.first_pass(self.at + 1)
                } else {
                    ReviewView {
                        srcinfos: table::inserted(
                            self.srcinfos,
                            bases::base_name(self.base()),
                            info,
                        ),
                        ..self
                    }.second_pass(self.at + 1)
                },
                _ => self.first_pass(self.at + 1),
            }
        }
    }

    /// The user has looked at the files; they go on without a question where packages
    /// from the repositories are installed too.
    pub open spec fn viewed(self, success: bool) -> ReviewView {
        if !success {
            self.at_stage(Stage::Failed)
        } else if self.actions.install.len() == 0 {
            self.at_stage(Stage::Proceed)
        } else {
            self.at_stage(Stage::Seen)
        }
    }

    /// Whether the stage ends by itself, with nothing to report.
    pub open spec fn plain(self) -> bool {
        match self.stage {
            Stage::Download | Stage::Seen | Stage::Keys | Stage::RepoInstall | Stage::RepoDeps
            | Stage::RepoExplicit | Stage::Build => true,
            _ => false,
        }
    }

    /// The stage was done.
    pub open spec fn done(self) -> ReviewView {
        match self.stage {
            Stage::Download => self.second_pass(0),
            Stage::Seen => if self.incompatible().len() > 0 {
                self.at_stage(Stage::Incompatible)
            } else {
                self.after_arch()
            },
            Stage::Keys => self.after_keys(),
            Stage::RepoInstall => self.mark_deps(),
            Stage::RepoDeps => self.mark_exp(),
            Stage::RepoExplicit => self.at_stage(Stage::Build),
            Stage::Build => self.at_stage(Stage::Done),
            _ => self,
        }
    }

    /// The question of the stage.
    pub open spec fn question(self) -> Seq<char> {
        match self.stage {
            Stage::Review => "Proceed to review?"@,
            Stage::Proceed => "Proceed with installation?"@,
            _ => "Would you like to try build them anyway?"@,
        }
    }

    /// What is told before the question.
    pub open spec fn notice(self) -> Option<Seq<char>> {
        if self.stage == Stage::Incompatible {
            Some(
                "The following packages are not compatible with your architecture:\n"@ + name_lines(
                    self.incompatible(),
                ),
            )
        } else {
            None
        }
    }

    /// The call that marks packages from the repositories at the stage.
    pub open spec fn mark_call(self) -> ArgsView {
        if self.stage == Stage::RepoDeps {
            pacman::reason_call(self.config, "asdeps"@, self.deps)
        } else {
            pacman::reason_call(self.config, "asexplicit"@, self.exp)
        }
    }

    /// The result of the whole: a no is no success.
    pub open spec fn code(self) -> i32 {
        if self.stage == Stage::Done {
            0
        } else {
            1
        }
    }

    /// A bound on the stages that are left.
    pub open spec fn left(self) -> int {
        let n = self.bases.len() as int;
        match self.stage {
            Stage::Review => 2 * n + 15,
            Stage::Srcinfo => (n - self.at) + n + 14,
            Stage::Versions => n + 13,
            Stage::Download => n + 12,
            Stage::NewSrcinfo => (n - self.at) + 11,
            Stage::View => 10,
            Stage::Proceed => 9,
            Stage::Seen => 8,
            Stage::Incompatible => 7,
            Stage::Keys => 6,
            Stage::Repo => 5,
            Stage::RepoInstall => 4,
            Stage::RepoDeps => 3,
            Stage::RepoExplicit => 2,
            Stage::Build => 1,
            Stage::Done => 0,
            Stage::Declined => 0,
            Stage::Failed => 0,
        }
    }
}

proof fn lemma_next_unknown(s: ReviewView, from: nat)
    requires
        from <= s.bases.len(),
    ensures
        ({
            let at = s.next_unknown(from);
            &&& from <= at <= s.bases.len()
            &&& at < s.bases.len() ==> !s.known(at as int)
            &&& forall|i: int| from <= i < at ==> #[trigger] s.known(i)
        }),
    decreases s.bases.len() - from,
{
    if from < s.bases.len() && s.known(from as int) {
        lemma_next_unknown(s, from + 1);
    }
}

/// A row stays, and a table of which no key has two rows stays such a table.
proof fn lemma_inserted<V>(rows: Seq<(Seq<char>, V)>, key: Seq<char>, value: V)
    requires
        table::unique(rows),
    ensures
        table::unique(table::inserted(rows, key, value)),
        table::has_key(table::inserted(rows, key, value), key),
        forall|k: Seq<char>|
            table::has_key(rows, k) ==> #[trigger] table::has_key(
                table::inserted(rows, key, value),
                k,
            ),
{
    let more = table::inserted(rows, key, value);
    if table::has_key(rows, key) {
        let at = table::row_of(rows, key);
        assert(forall|i: int| 0 <= i < rows.len() ==> (#[trigger] more[i]).0 == rows[i].0);
        assert(more[at].0 == key);
    } else {
        assert(more[rows.len() as int].0 == key);
        assert(forall|i: int| 0 <= i < rows.len() ==> #[trigger] more[i] == rows[i]);
    }
    assert forall|k: Seq<char>| table::has_key(rows, k) implies #[trigger] table::has_key(
        more,
        k,
    ) by {
        let i = table::row_of(rows, k);
        assert(more[i].0 == k);
    }
}

/// Putting a file into a table and looking at what the files say can change places.
proof fn lemma_infos(rows: Seq<(Seq<char>, SrcInfo)>, key: Seq<char>, info: SrcInfo)
    requires
        table::unique(rows),
    ensures
        table::unique(infos(rows)),
        forall|k: Seq<char>| table::has_key(infos(rows), k) == #[trigger] table::has_key(rows, k),
        infos(table::inserted(rows, key, info)) == table::inserted(infos(rows), key, info@),
{
    assert(forall|i: int| 0 <= i < rows.len() ==> (#[trigger] infos(rows)[i]).0 == rows[i].0);
    assert forall|k: Seq<char>| table::has_key(infos(rows), k) == #[trigger] table::has_key(
        rows,
        k,
    ) by {
        if table::has_key(rows, k) {
            assert(infos(rows)[table::row_of(rows, k)].0 == k);
        }
        if table::has_key(infos(rows), k) {
            assert(rows[table::row_of(infos(rows), k)].0 == k);
        }
    }
    if table::has_key(rows, key) {
        let i = table::row_of(rows, key);
        let j = table::row_of(infos(rows), key);
        assert(table::has_key(infos(rows), key));
        assert(rows[j].0 == key);
        assert(i == j);
    }
    assert(infos(table::inserted(rows, key, info)) =~= table::inserted(infos(rows), key, info@));
}

proof fn lemma_second_pass(s: ReviewView, from: nat)
    requires
        s.actions.wf(),
        bases::filled(s.bases),
        table::unique(s.srcinfos),
        from <= s.bases.len(),
        forall|i: int| 0 <= i < from ==> #[trigger] s.known(i),
    ensures
        s.second_pass(from).wf(),
{
    lemma_next_unknown(s, from);
    let next = s.second_pass(from);
    assert(forall|i: int| #[trigger] next.known(i) == s.known(i));
}

/// What holds at every stage still holds after every report.
pub proof fn law_reports_keep_wf(
    s: ReviewView,
    yes: bool,
    info: Option<Result<SrcInfoView, Seq<char>>>,
    success: bool,
    installed: Seq<bool>,
)
    requires
        s.wf(),
    ensures
        s.asking() ==> s.answered(yes).wf(),
        s.reading() ==> s.parsed(info).wf(),
        s.stage == Stage::Versions ==> s.at_stage(Stage::Download).wf(),
        s.stage == Stage::View ==> s.viewed(success).wf(),
        s.stage == Stage::Repo ==> s.repo_known(installed).wf(),
        s.plain() ==> s.done().wf(),
{
    lemma_repo_wf(s, installed);
    lemma_answered_wf(s, yes);
    lemma_parsed_wf(s, info);
    lemma_done_wf(s);
    if s.stage == Stage::View {
        let next = s.viewed(success);
        assert(forall|i: int| #[trigger] next.known(i) == s.known(i));
    }
}

proof fn lemma_arch_wf(s: ReviewView)
    requires
        s.wf(),
        s.complete(),
    ensures
        s.after_arch().wf(),
        s.after_keys().wf(),
        s.at_stage(Stage::Seen).wf(),
        s.at_stage(Stage::Build).wf(),
        s.at_stage(Stage::Done).wf(),
        s.mark_deps().wf(),
        s.mark_exp().wf(),
        s.incompatible().len() > 0 ==> s.at_stage(Stage::Incompatible).wf(),
{
    assert(forall|i: int, stage: Stage| #[trigger] s.at_stage(stage).known(i) == s.known(i));
}

proof fn lemma_repo_wf(s: ReviewView, installed: Seq<bool>)
    requires
        s.wf(),
    ensures
        s.stage == Stage::Repo ==> s.repo_known(installed).wf(),
{
    let next = s.repo_known(installed);
    assert(forall|i: int| #[trigger] next.known(i) == s.known(i));
}

proof fn lemma_answered_wf(s: ReviewView, yes: bool)
    requires
        s.wf(),
    ensures
        s.asking() ==> s.answered(yes).wf(),
{
    if s.asking() && s.stage != Stage::Review {
        lemma_arch_wf(s);
    }
}

proof fn lemma_parsed_wf(s: ReviewView, info: Option<Result<SrcInfoView, Seq<char>>>)
    requires
        s.wf(),
    ensures
        s.reading() ==> s.parsed(info).wf(),
{
    if s.reading() && s.read_failure(info) is None {
        if let Some(Ok(info)) = info {
            if s.stage == Stage::Srcinfo {
                lemma_inserted(s.srcinfos, info.pkgbase, info);
            } else {
                let name = bases::base_name(s.base());
                lemma_inserted(s.srcinfos, name, info);
                let next = ReviewView {
                    srcinfos: table::inserted(s.srcinfos, name, info),
                    ..s
                };
                assert forall|i: int| 0 <= i < s.at + 1 implies #[trigger] next.known(i) by {
                    if i < s.at {
                        assert(s.known(i));
                    }
                }
                lemma_second_pass(next, s.at + 1);
            }
        }
    }
}

proof fn lemma_done_wf(s: ReviewView)
    requires
        s.wf(),
    ensures
        s.plain() ==> s.done().wf(),
{
    if s.plain() {
        if s.stage == Stage::Download {
            lemma_second_pass(s, 0);
        } else {
            lemma_arch_wf(s);
        }
    }
}

/// From the moment on when the user sees the files, every base has its `.SRCINFO`.
pub proof fn law_seen_is_known(s: ReviewView, i: int)
    requires
        s.wf(),
        s.fetched(),
        0 <= i < s.bases.len(),
    ensures
        table::has_key(s.srcinfos, bases::base_name(s.bases[i])),
{
    assert(s.known(i));
}

/// Every report brings the end closer.
pub proof fn law_progress(
    s: ReviewView,
    yes: bool,
    info: Option<Result<SrcInfoView, Seq<char>>>,
    success: bool,
    installed: Seq<bool>,
)
    requires
        s.wf(),
    ensures
        s.left() >= 0,
        s.asking() ==> s.answered(yes).left() < s.left(),
        s.reading() ==> s.parsed(info).left() < s.left(),
        s.stage == Stage::Versions ==> s.at_stage(Stage::Download).left() < s.left(),
        s.stage == Stage::View ==> s.viewed(success).left() < s.left(),
        s.stage == Stage::Repo ==> s.repo_known(installed).left() < s.left(),
        s.plain() ==> s.done().left() < s.left(),
{
    if s.stage == Stage::Download {
        lemma_next_unknown(s, 0);
    }
    if s.stage == Stage::NewSrcinfo && s.read_failure(info) is None {
        let name = bases::base_name(s.base());
        let next = ReviewView {
            srcinfos: table::inserted(s.srcinfos, name, info->0->Ok_0),
            ..s
        };
        lemma_next_unknown(next, s.at + 1);
    }
}

/// The beginning: the packages to build are grouped by base, and the user is asked.
pub open spec fn start(
    config: ConfigView,
    actions: ActionsView,
    conflicts: Seq<ConflictView>,
    inner_conflicts: Seq<ConflictView>,
) -> ReviewView {
    ReviewView {
        config,
        actions,
        conflicts: actions::names_in_conflict(conflicts, inner_conflicts),
        bases: bases::grouped(pkgs_of(actions.build_pkgs())),
        srcinfos: Seq::empty(),
        at: 0,
        deps: Seq::empty(),
        exp: Seq::empty(),
        stage: Stage::Review,
    }
}

/// Starts with what was resolved. The conflicts are those with installed packages and
/// those of the packages among each other.
pub fn install_actions<'a>(
    config: &'a Config,
    actions: &'a Actions,
    conflicts: &Vec<Conflict>,
    inner_conflicts: &Vec<Conflict>,
) -> (r: Review<'a>)
    requires
        actions@.wf(),
    ensures
        r.wf(),
        r@ == start(
            config@,
            actions@,
            text::views(conflicts@),
            text::views(inner_conflicts@),
        ),
{
    let build = actions.build_pkgs();
    let ghost all = pkgs_of(actions@.build_pkgs());
    let mut pkgs: Vec<AurPackage> = Vec::new();
    assert(text::views(pkgs@) =~= all.take(0));
    for i in 0..build.len()
        invariant
            all == pkgs_of(package::borrowed(build@)),
            text::views(pkgs@) == all.take(i as int),
    {
        let pkg = build[i].pkg.clone();
        proof {
            text::lemma_views_push(pkgs@, pkg);
            text::lemma_take_push(all, i as int);
            assert(package::borrowed(build@)[i as int] == build[i as int]@);
        }
        pkgs.push(pkg);
    }
    assert(all.take(build@.len() as int) =~= all);
    let r = Review {
        config,
        actions,
        conflicts: actions::conflict_names(conflicts, inner_conflicts),
        bases: Bases::from_iter(pkgs),
        srcinfos: Table::new(),
        at: 0,
        deps: Vec::new(),
        exp: Vec::new(),
        stage: Stage::Review,
    };
    assert(r@.srcinfos =~= Seq::empty());
    assert(r@.deps =~= Seq::empty());
    assert(r@.exp =~= Seq::empty());
    r
}

impl<'a> Review<'a> {
    /// No package base has two entries.
    pub closed spec fn table_wf(&self) -> bool {
        self.srcinfos.wf()
    }

    /// What holds at every stage.
    pub open spec fn wf(&self) -> bool {
        self.table_wf() && self@.wf()
    }

    /// What has to be done next.
    pub fn stage(&self) -> (r: Stage)
        ensures
            r == self@.stage,
    {
        self.stage
    }

    /// The bases to build.
    pub fn bases(&self) -> (r: &Bases)
        ensures
            r@ == self@.bases,
    {
        &self.bases
    }

    /// What the `.SRCINFO` files say.
    pub fn srcinfos(&self) -> (r: &Table<SrcInfo>)
        requires
            self.wf(),
        ensures
            r.wf(),
            infos(r.rows()) == self@.srcinfos,
    {
        &self.srcinfos
    }

    /// The names of the packages that are in a conflict.
    pub fn conflicts(&self) -> (r: Vec<String>)
        ensures
            text::views(r@) == self@.conflicts,
    {
        text::copy_texts(&self.conflicts)
    }

    /// The base whose `.SRCINFO` is to be read.
    pub fn base(&self) -> (r: &bases::Base)
        requires
            self.wf(),
            self@.reading(),
        ensures
            r@ == self@.base(),
            r@.len() > 0,
    {
        assert(self@.bases[self.at as int] == self.bases.bases[self.at as int]@);
        &self.bases.bases[self.at]
    }

    /// The names of the bases to build.
    pub fn build_names(&self) -> (r: Vec<String>)
        requires
            self.wf(),
        ensures
            text::views(r@) == self@.actions.build_bases(),
    {
        let ghost all = self@.actions.build_bases();
        let mut out: Vec<String> = Vec::new();
        assert(text::views(out@) =~= all.take(0));
        for i in 0..self.actions.build.len()
            invariant
                self@.actions.wf(),
                all == self@.actions.build_bases(),
                text::views(out@) == all.take(i as int),
        {
            assert(self@.actions.build[i as int] == self.actions.build[i as int]@);
            let name = self.actions.build[i].package_base().to_owned();
            proof {
                text::lemma_views_push(out@, name);
                text::lemma_take_push(all, i as int);
            }
            out.push(name);
        }
        assert(all.take(self.actions.build@.len() as int) =~= all);
        out
    }

    /// The question of the stage.
    pub fn question(&self) -> (r: &'static str)
        requires
            self@.asking(),
        ensures
            r@ == self@.question(),
    {
        match self.stage {
            Stage::Review => "Proceed to review?",
            Stage::Proceed => "Proceed with installation?",
            _ => "Would you like to try build them anyway?",
        }
    }

    fn incompatible(&self) -> (r: Vec<String>)
        ensures
            text::views(r@) == self@.incompatible(),
    {
        let ghost all = infos(self.srcinfos.rows());
        let mut out: Vec<String> = Vec::new();
        assert(all.take(0) =~= Seq::<(Seq<char>, SrcInfoView)>::empty());
        assert(text::views(out@) =~= incompatible_pkgs(all.take(0), self@.config.arch));
        let n = self.srcinfos.len();
        for i in 0..n
            invariant
                n == self.srcinfos.rows().len(),
                all == infos(self.srcinfos.rows()),
                text::views(out@) == incompatible_pkgs(all.take(i as int), self@.config.arch),
        {
            proof {
                text::lemma_take_push(all, i as int);
            }
            let more = self.srcinfos.value(i).incompatible(self.config.arch.as_str());
            text::append_texts(&mut out, &more);
        }
        assert(all.take(self.srcinfos.rows().len() as int) =~= all);
        out
    }

    /// What is told before the question.
    pub fn notice(&self) -> (r: Option<String>)
        ensures
            text::option_view(r) == self@.notice(),
    {
        if self.stage != Stage::Incompatible {
            return None;
        }
        let names = self.incompatible();
        let ghost all = self@.incompatible();
        let mut out =
            "The following packages are not compatible with your architecture:\n".to_owned();
        let ghost head = out@;
        assert(all.take(0) =~= Seq::<Seq<char>>::empty());
        assert(out@ =~= head + name_lines(all.take(0)));
        for i in 0..names.len()
            invariant
                all == text::views(names@),
                out@ == head + name_lines(all.take(i as int)),
        {
            proof {
                text::lemma_take_push(all, i as int);
            }
            out.append(names[i].as_str());
            out.append("\n");
            assert(out@ =~= head + name_lines(all.take(i + 1)));
        }
        assert(all.take(names@.len() as int) =~= all);
        Some(out)
    }

    fn first_pass(&mut self, at: usize)
        ensures
            final(self)@ == old(self)@.first_pass(at as nat),
            final(self).srcinfos == old(self).srcinfos,
    {
        self.at = at;
        if at < self.bases.bases.len() {
            self.stage = Stage::Srcinfo;
        } else {
            self.stage = Stage::Versions;
        }
    }

    fn is_known(&self, i: usize) -> (r: bool)
        requires
            self.table_wf(),
            bases::filled(self@.bases),
            i < self@.bases.len(),
        ensures
            r == self@.known(i as int),
    {
        assert(self@.bases[i as int] == self.bases.bases[i as int]@);
        proof {
            lemma_versions(self.srcinfos.rows(), bases::base_name(self@.bases[i as int]));
        }
        self.srcinfos.contains_key(self.bases.bases[i].package_base())
    }

    fn second_pass(&mut self, from: usize)
        requires
            old(self).table_wf(),
            bases::filled(old(self)@.bases),
            from <= old(self)@.bases.len(),
        ensures
            final(self)@ == old(self)@.second_pass(from as nat),
            final(self).srcinfos == old(self).srcinfos,
    {
        let mut at = from;
        let ghost s = self@;
        while at < self.bases.bases.len() && self.is_known(at)
            invariant
                s == self@,
                self.srcinfos == old(self).srcinfos,
                self.table_wf(),
                bases::filled(s.bases),
                at <= s.bases.len(),
                s.next_unknown(at as nat) == s.next_unknown(from as nat),
            decreases s.bases.len() - at,
        {
            at = at + 1;
        }
        self.at = at;
        if at < self.bases.bases.len() {
            self.stage = Stage::NewSrcinfo;
        } else {
            self.stage = Stage::View;
        }
    }

    fn after_keys(&mut self)
        ensures
            final(self)@ == old(self)@.after_keys(),
            final(self).srcinfos == old(self).srcinfos,
    {
        if self.actions.install.len() > 0 {
            self.stage = Stage::Repo;
        } else {
            self.stage = Stage::Build;
        }
    }

    fn after_arch(&mut self)
        ensures
            final(self)@ == old(self)@.after_arch(),
            final(self).srcinfos == old(self).srcinfos,
    {
        if self.config.pgp_fetch {
            self.stage = Stage::Keys;
        } else {
            self.after_keys();
        }
    }

    /// Reports the answer to the question.
    pub fn answered(&mut self, yes: bool)
        requires
            old(self).wf(),
            old(self)@.asking(),
        ensures
            final(self).wf(),
            final(self)@ == old(self)@.answered(yes),
    {
        proof {
            lemma_answered_wf(self@, yes);
        }
        if !yes {
            self.stage = Stage::Declined;
        } else {
            match self.stage {
                Stage::Review => self.first_pass(0),
                Stage::Proceed => {
                    self.stage = Stage::Seen;
                },
                _ => self.after_arch(),
            }
        }
    }

    /// Reports what the `.SRCINFO` of the base says, or why it cannot be read, where it is
    /// there.
    pub fn parsed(&mut self, info: Option<Result<SrcInfo, String>>) -> (r: Result<(), Error>)
        requires
            old(self).wf(),
            old(self)@.reading(),
        ensures
            final(self).wf(),
            final(self)@ == old(self)@.parsed(parsed_view(info)),
            match r {
                Ok(()) => old(self)@.read_failure(parsed_view(info)) is None,
                Err(e) => old(self)@.read_failure(parsed_view(info)) == Some(e@),
            },
    {
        proof {
            lemma_parsed_wf(self@, parsed_view(info));
        }
        assert(self.at < self.bases.bases.len());
        match info {
            Some(Ok(info)) => {
                let first = self.stage == Stage::Srcinfo;
                let key = if first {
                    info.pkgbase.clone()
                } else {
                    self.base().package_base().to_owned()
                };
                proof {
                    lemma_infos(self.srcinfos.rows(), key@, info);
                }
                self.srcinfos.insert(key, info);
                let next: usize = self.at + 1;
                if first {
                    self.first_pass(next);
                } else {
                    self.second_pass(next);
                }
                Ok(())
            },
            Some(Err(cause)) => {
                let base = self.base().text();
                self.stage = Stage::Failed;
                Err(Error::BadSrcinfo { base, cause })
            },
            None => {
                if self.stage == Stage::NewSrcinfo {
                    let base = self.base().package_base().to_owned();
                    self.stage = Stage::Failed;
                    Err(Error::NoSrcinfo(base))
                } else {
                    let next: usize = self.at + 1;
                    self.first_pass(next);
                    Ok(())
                }
            },
        }
    }

    /// Reports the bytes of the `.SRCINFO` of the base, where it is there.
    pub fn read(&mut self, file: &Option<Vec<u8>>) -> (r: Result<(), Error>)
        requires
            old(self).wf(),
            old(self)@.reading(),
        ensures
            final(self).wf(),
            ({
                let info = match *file {
                    Some(file) => Some(srcinfo::srcinfo_of(file@)),
                    None => None,
                };
                &&& final(self)@ == old(self)@.parsed(info)
                &&& match r {
                    Ok(()) => old(self)@.read_failure(info) is None,
                    Err(e) => old(self)@.read_failure(info) == Some(e@),
                }
            }),
    {
        match file {
            Some(file) => self.parsed(Some(srcinfo::parse(file))),
            None => self.parsed(None),
        }
    }

    /// The versions that have to be compared.
    pub fn version_pairs(&self) -> (r: Vec<Option<(String, String)>>)
        requires
            self.wf(),
            self@.stage == Stage::Versions,
        ensures
            r@.len() == self@.bases.len(),
            forall|i: int|
                0 <= i < r@.len() ==> (match #[trigger] r@[i] {
                    Some(pair) => Some((pair.0@, pair.1@)),
                    None => None,
                }) == self@.versions(i),
    {
        let r = download::version_pairs(&self.bases, &self.srcinfos);
        assert forall|i: int| 0 <= i < r@.len() implies (match #[trigger] r@[i] {
            Some(pair) => Some((pair.0@, pair.1@)),
            None => None,
        }) == self@.versions(i) by {
            lemma_versions(self.srcinfos.rows(), bases::base_name(self@.bases[i]));
        }
        r
    }

    /// Reports which bases are newer than their `.SRCINFO`; decides what is downloaded.
    pub fn compared(&mut self, newer: &Vec<bool>) -> (r: Download)
        requires
            old(self).wf(),
            old(self)@.stage == Stage::Versions,
            newer@.len() == old(self)@.bases.len(),
        ensures
            final(self).wf(),
            final(self)@ == old(self)@.at_stage(Stage::Download),
            bases::filled(r@.bases),
            r@ == old(self)@.download(newer@),
    {
        let r = download::new_aur_pkgbuilds(self.config, &self.bases, &self.srcinfos, newer);
        proof {
            let rows = self.srcinfos.rows();
            assert forall|key: Seq<char>| table::has_key(infos(rows), key) == #[trigger] table::content(
                rows,
            ).contains_key(key) by {
                lemma_versions(rows, key);
            }
            assert(self.srcinfos@.dom() =~= self@.known_names());
        }
        self.stage = Stage::Download;
        r
    }

    /// Reports whether the user could look at the files.
    pub fn viewed(&mut self, success: bool) -> (r: Result<(), Error>)
        requires
            old(self).wf(),
            old(self)@.stage == Stage::View,
        ensures
            final(self).wf(),
            final(self)@ == old(self)@.viewed(success),
            match r {
                Ok(()) => success,
                Err(e) => !success && e@ == ErrorView::FileManager,
            },
    {
        proof {
            law_reports_keep_wf(self@, true, None, success, Seq::empty());
        }
        if !success {
            self.stage = Stage::Failed;
            return Err(Error::FileManager);
        }
        if self.actions.install.len() == 0 {
            self.stage = Stage::Proceed;
        } else {
            self.stage = Stage::Seen;
        }
        Ok(())
    }

    /// Reports that the stage was done.
    pub fn done(&mut self)
        requires
            old(self).wf(),
            old(self)@.plain(),
        ensures
            final(self).wf(),
            final(self)@ == old(self)@.done(),
    {
        proof {
            lemma_done_wf(self@);
        }
        match self.stage {
            Stage::Download => self.second_pass(0),
            Stage::Seen => {
                if self.incompatible().len() > 0 {
                    self.stage = Stage::Incompatible;
                } else {
                    self.after_arch();
                }
            },
            Stage::Keys => self.after_keys(),
            Stage::RepoInstall => self.mark_deps(),
            Stage::RepoDeps => self.mark_exp(),
            Stage::RepoExplicit => {
                self.stage = Stage::Build;
            },
            _ => {
                self.stage = Stage::Done;
            },
        }
    }

    fn mark_exp(&mut self)
        ensures
            final(self)@ == old(self)@.mark_exp(),
            final(self).srcinfos == old(self).srcinfos,
    {
        if self.exp.len() > 0 {
            self.stage = Stage::RepoExplicit;
        } else {
            self.stage = Stage::Build;
        }
    }

    fn mark_deps(&mut self)
        ensures
            final(self)@ == old(self)@.mark_deps(),
            final(self).srcinfos == old(self).srcinfos,
    {
        if self.deps.len() > 0 {
            self.stage = Stage::RepoDeps;
        } else {
            self.mark_exp();
        }
    }

    /// Reports, for each package from the repositories, whether it is installed already.
    pub fn repo_known(&mut self, installed: &Vec<bool>)
        requires
            old(self).wf(),
            old(self)@.stage == Stage::Repo,
            installed@.len() == old(self)@.actions.install.len(),
        ensures
            final(self).wf(),
            final(self)@ == old(self)@.repo_known(installed@),
    {
        proof {
            lemma_repo_wf(self@, installed@);
        }
        if let Some(todo) = pacman::repo_install(self.config, &self.actions.install, installed) {
            self.deps = todo.deps;
            self.exp = todo.exp;
        }
        self.stage = Stage::RepoInstall;
    }

    /// The call that installs the packages from the repositories.
    pub fn repo_call(&self) -> (r: Args)
        ensures
            r@ == pacman::repo_call(self@.config, self@.actions.install),
    {
        pacman::repo_args(self.config, &self.actions.install)
    }

    /// The call that marks packages from the repositories at the stage.
    pub fn mark_call(&self) -> (r: Args)
        requires
            self.wf(),
            self@.stage == Stage::RepoDeps || self@.stage == Stage::RepoExplicit,
        ensures
            r@ == self@.mark_call(),
    {
        let call = if self.stage == Stage::RepoDeps {
            pacman::asdeps(self.config, &self.deps)
        } else {
            pacman::asexp(self.config, &self.exp)
        };
        match call {
            Some(args) => args,
            None => self.config.pacman_globals(),
        }
    }

    /// The result of the whole.
    pub fn code(&self) -> (r: i32)
        requires
            self@.stage == Stage::Done || self@.stage == Stage::Declined,
        ensures
            r == self@.code(),
    {
        if self.stage == Stage::Done {
            0
        } else {
            1
        }
    }
}

/// What a `.SRCINFO` says, or why it cannot be read, where it is there.
pub open spec fn parsed_view(info: Option<Result<SrcInfo, String>>) -> Option<
    Result<SrcInfoView, Seq<char>>,
> {
    match info {
        Some(Ok(info)) => Some(Ok(info@)),
        Some(Err(cause)) => Some(Err(cause@)),
        None => None,
    }
}

impl ReviewView {
    /// The names of the bases whose `.SRCINFO` was read.
    pub open spec fn known_names(self) -> Set<Seq<char>> {
        Set::new(|name: Seq<char>| table::has_key(self.srcinfos, name))
    }

    /// The version of a base and the version that its `.SRCINFO` gives, where it was read.
    pub open spec fn versions(self, i: int) -> Option<(Seq<char>, Seq<char>)> {
        let name = bases::base_name(self.bases[i]);
        if table::has_key(self.srcinfos, name) {
            let row = table::row_of(self.srcinfos, name);
            Some((self.bases[i][0].version, self.srcinfos[row].1.version()))
        } else {
            None
        }
    }

    /// What is downloaded, given which bases are newer than their `.SRCINFO`.
    pub open spec fn download(self, newer: Seq<bool>) -> download::DownloadView {
        download::download_of(
            self.config,
            download::to_download(self.config, self.bases, self.known_names(), newer),
        )
    }
}

proof fn lemma_versions(rows: Seq<(Seq<char>, SrcInfo)>, name: Seq<char>)
    requires
        table::unique(rows),
    ensures
        table::has_key(infos(rows), name) == table::content(rows).contains_key(name),
        table::has_key(infos(rows), name) ==> infos(rows)[table::row_of(infos(rows), name)].1
            == table::content(rows)[name]@,
{
    if table::has_key(rows, name) {
        let i = table::row_of(rows, name);
        assert(infos(rows)[i].0 == name);
        let j = table::row_of(infos(rows), name);
        assert(rows[j].0 == name);
        assert(i == j);
    }
    if table::has_key(infos(rows), name) {
        assert(rows[table::row_of(infos(rows), name)].0 == name);
    }
}

/// A no is final: nothing is done after it, and nothing else changes by it.
pub proof fn law_no_is_final(s: ReviewView)
    requires
        s.asking(),
    ensures
        s.answered(false) == (ReviewView { stage: Stage::Declined, ..s }),
        !s.answered(false).asking(),
        !s.answered(false).reading(),
        !s.answered(false).plain(),
{
}

/// Packages from the repositories are installed before any is marked; then those that
/// others need are marked, then those that were asked for, then building begins. The
/// marks do not change in between.
pub proof fn law_repo_install_then_mark(s: ReviewView)
    requires
        s.wf(),
    ensures
        s.stage == Stage::RepoInstall || s.stage == Stage::RepoDeps || s.stage
            == Stage::RepoExplicit ==> s.done().deps == s.deps && s.done().exp == s.exp,
        s.stage == Stage::RepoInstall && s.deps.len() > 0 ==> s.done().stage == Stage::RepoDeps,
        s.stage == Stage::RepoInstall && s.deps.len() == 0 || s.stage == Stage::RepoDeps
            ==> s.done().stage == (if s.exp.len() > 0 {
            Stage::RepoExplicit
        } else {
            Stage::Build
        }),
        s.stage == Stage::RepoExplicit ==> s.done().stage == Stage::Build,
{
}

// ---- what the run is for ----

/// Whether the packages from the repositories are being dealt with, or have been.
pub open spec fn repo_begun(stage: Stage) -> bool {
    stage == Stage::Repo || stage == Stage::RepoInstall || stage == Stage::RepoDeps || stage
        == Stage::RepoExplicit
}

/// Nothing is built before the packages from the repositories are installed: where there
/// are any, whatever is reported and whether or not keys are fetched, building comes only
/// after their installation, their installation only after it was looked which are there
/// already, and that after everything that is asked and fetched.
pub proof fn law_dependencies_before_build(
    s: ReviewView,
    yes: bool,
    info: Option<Result<SrcInfoView, Seq<char>>>,
    success: bool,
    installed: Seq<bool>,
)
    requires
        s.wf(),
        s.actions.install.len() > 0,
    ensures
        s.asking() ==> s.answered(yes).stage != Stage::Build && s.answered(yes).stage
            != Stage::RepoInstall,
        s.reading() ==> s.parsed(info).stage != Stage::Build && !repo_begun(s.parsed(info).stage),
        s.stage == Stage::View ==> s.viewed(success).stage != Stage::Build && !repo_begun(
            s.viewed(success).stage,
        ),
        s.stage == Stage::Repo ==> s.repo_known(installed).stage == Stage::RepoInstall,
        s.plain() && s.done().stage == Stage::Build ==> s.stage == Stage::RepoInstall || s.stage
            == Stage::RepoDeps || s.stage == Stage::RepoExplicit,
        s.plain() && s.done().stage == Stage::RepoDeps ==> s.stage == Stage::RepoInstall,
        s.plain() && s.done().stage == Stage::RepoExplicit ==> s.stage == Stage::RepoInstall
            || s.stage == Stage::RepoDeps,
        s.plain() ==> s.done().stage != Stage::RepoInstall,
        s.stage == Stage::Keys ==> s.done().stage == Stage::Repo,
{
}

/// Without packages from the repositories, building follows on the keys, or on the
/// questions where no keys are fetched; nothing is installed or marked in between.
pub proof fn law_build_without_repo(s: ReviewView)
    requires
        s.wf(),
        s.actions.install.len() == 0,
    ensures
        s.stage == Stage::Keys ==> s.done().stage == Stage::Build,
        s.stage == Stage::Incompatible && !s.config.pgp_fetch ==> s.answered(true).stage
            == Stage::Build,
        s.plain() && !repo_begun(s.stage) ==> !repo_begun(s.done().stage),
        s.asking() ==> !repo_begun(s.answered(true).stage),
{
}

/// Keys are fetched exactly where the settings say so, once it is settled that the
/// packages can be built or that the user wants to try; without that, the packages from
/// the repositories or building come next.
pub proof fn law_keys_fetched(s: ReviewView)
    requires
        s.wf(),
        s.stage == Stage::Seen || s.stage == Stage::Incompatible,
    ensures
        ({
            let next = if s.stage == Stage::Seen {
                s.done()
            } else {
                s.answered(true)
            };
            let asked = s.stage == Stage::Seen && s.incompatible().len() > 0;
            &&& s.stage == Stage::Seen && s.incompatible().len() > 0 <==> next.stage
                == Stage::Incompatible
            &&& !asked ==> (next.stage == Stage::Keys <==> s.config.pgp_fetch)
            &&& !asked && !s.config.pgp_fetch ==> next.stage == (if s.actions.install.len() > 0 {
                Stage::Repo
            } else {
                Stage::Build
            })
            &&& (ReviewView { stage: s.stage, ..next }) == s
        }),
{
}

/// A package is told not to fit this machine exactly where a `.SRCINFO` that was read has
/// it for neither every architecture nor this one.
pub proof fn law_incompatible(
    srcinfos: Seq<(Seq<char>, SrcInfoView)>,
    arch: Seq<char>,
    name: Seq<char>,
)
    ensures
        incompatible_pkgs(srcinfos, arch).contains(name) <==> exists|i: int, k: int|
            0 <= i < srcinfos.len() && 0 <= k < srcinfos[i].1.pkgs.len() && (
            #[trigger] srcinfos[i].1.pkgs[k]).pkgname == name
                && !srcinfos[i].1.pkgs[k].arch.contains("any"@)
                && !srcinfos[i].1.pkgs[k].arch.contains(arch),
    decreases srcinfos.len(),
{
    if srcinfos.len() > 0 {
        let init = srcinfos.drop_last();
        let last = srcinfos.last().1;
        law_incompatible(init, arch, name);
        let test = |pkg: srcinfo::SrcPackageView| pkg.incompatible(arch);
        let called = |pkg: srcinfo::SrcPackageView| pkg.pkgname;
        text::lemma_filter_mapped(last.pkgs, test, called, name);
        let less = incompatible_pkgs(init, arch);
        let own = last.incompatible(arch);
        let all = incompatible_pkgs(srcinfos, arch);
        if less.contains(name) {
            let k = choose|k: int| 0 <= k < less.len() && less[k] == name;
            assert(all[k] == name);
            let (i, k) = choose|i: int, k: int|
                0 <= i < init.len() && 0 <= k < init[i].1.pkgs.len() && (
                #[trigger] init[i].1.pkgs[k]).pkgname == name
                    && !init[i].1.pkgs[k].arch.contains("any"@)
                    && !init[i].1.pkgs[k].arch.contains(arch);
            assert(srcinfos[i].1.pkgs[k] == init[i].1.pkgs[k]);
        }
        if own.contains(name) {
            let k = choose|k: int| 0 <= k < own.len() && own[k] == name;
            assert(all[less.len() + k] == name);
            let j = choose|j: int|
                0 <= j < last.pkgs.len() && test(#[trigger] last.pkgs[j]) && called(last.pkgs[j])
                    == name;
            assert(srcinfos[srcinfos.len() - 1].1.pkgs[j] == last.pkgs[j]);
        }
        if all.contains(name) {
            let k = choose|k: int| 0 <= k < all.len() && all[k] == name;
            if k < less.len() {
                assert(less[k] == name);
            } else {
                assert(own[k - less.len()] == name);
            }
        }
        if exists|i: int, k: int|
            0 <= i < srcinfos.len() && 0 <= k < srcinfos[i].1.pkgs.len() && (
            #[trigger] srcinfos[i].1.pkgs[k]).pkgname == name
                && !srcinfos[i].1.pkgs[k].arch.contains("any"@)
                && !srcinfos[i].1.pkgs[k].arch.contains(arch) {
            let (i, k) = choose|i: int, k: int|
                0 <= i < srcinfos.len() && 0 <= k < srcinfos[i].1.pkgs.len() && (
                #[trigger] srcinfos[i].1.pkgs[k]).pkgname == name
                    && !srcinfos[i].1.pkgs[k].arch.contains("any"@)
                    && !srcinfos[i].1.pkgs[k].arch.contains(arch);
            if i < init.len() {
                assert(init[i].1.pkgs[k] == srcinfos[i].1.pkgs[k]);
            } else {
                assert(test(last.pkgs[k]) && called(last.pkgs[k]) == name);
            }
        }
    }
}

/// The user is asked about packages that do not fit this machine exactly where one that
/// was read does not, and is asked then about all of them and no other.
pub proof fn law_asked_about_machine(s: ReviewView, name: Seq<char>)
    requires
        s.wf(),
    ensures
        s.incompatible().contains(name) <==> exists|i: int, k: int|
            0 <= i < s.srcinfos.len() && 0 <= k < s.srcinfos[i].1.pkgs.len() && (
            #[trigger] s.srcinfos[i].1.pkgs[k]).pkgname == name
                && !s.srcinfos[i].1.pkgs[k].arch.contains("any"@)
                && !s.srcinfos[i].1.pkgs[k].arch.contains(s.config.arch),
        s.stage == Stage::Seen ==> (s.done().stage == Stage::Incompatible <==> exists|pkg: Seq<char>|
            s.incompatible().contains(pkg)),
{
    law_incompatible(s.srcinfos, s.config.arch, name);
    if s.incompatible().len() > 0 {
        assert(s.incompatible().contains(s.incompatible()[0]));
    }
}

/// A yes leads on: to the first base, to noting that the files were seen, or past the
/// question about the machine; a no ends everything.
pub proof fn law_answers(s: ReviewView, yes: bool)
    requires
        s.wf(),
        s.asking(),
    ensures
        ({
            let next = s.answered(yes);
            &&& !yes ==> next.stage == Stage::Declined
            &&& yes && s.stage == Stage::Review && s.bases.len() > 0 ==> next.stage
                == Stage::Srcinfo && next.at == 0
            &&& yes && s.stage == Stage::Review && s.bases.len() == 0 ==> next.stage
                == Stage::Versions
            &&& yes && s.stage == Stage::Proceed ==> next.stage == Stage::Seen
            &&& yes && s.stage == Stage::Incompatible ==> next.stage == (if s.config.pgp_fetch {
                Stage::Keys
            } else if s.actions.install.len() > 0 {
                Stage::Repo
            } else {
                Stage::Build
            })
            &&& (ReviewView { stage: s.stage, at: s.at, ..next }) == s
        }),
{
}

/// Before anything is downloaded every base has its turn, one after the other: where a
/// `.SRCINFO` is there it is kept, under the name of the base that it gives itself; where
/// it is not, nothing is kept and the next base comes up. One that cannot be read ends
/// everything.
pub proof fn law_first_pass(s: ReviewView, info: Option<Result<SrcInfoView, Seq<char>>>)
    requires
        s.wf(),
        s.stage == Stage::Srcinfo,
    ensures
        ({
            let next = s.parsed(info);
            &&& next.stage == Stage::Failed <==> info is Some && info->0 is Err
            &&& next.stage != Stage::Failed ==> next.at == s.at + 1 && next.stage == (if s.at + 1
                < s.bases.len() {
                Stage::Srcinfo
            } else {
                Stage::Versions
            })
            &&& info is None ==> next.srcinfos == s.srcinfos
            &&& info matches Some(Ok(info)) ==> table::content(next.srcinfos) == table::content(
                s.srcinfos,
            ).insert(info.pkgbase, info)
            &&& next.stage == Stage::Failed ==> next.srcinfos == s.srcinfos
            &&& next.bases == s.bases && next.config == s.config && next.actions == s.actions
        }),
{
    if let Some(Ok(info)) = info {
        table::law_inserted(s.srcinfos, info.pkgbase, info);
    }
}

/// After the download the bases whose `.SRCINFO` is not known yet have their turn, the
/// first of them first, and what theirs says is kept under the name of the base that it
/// was read for. One that is not there by now, or cannot be read, ends everything. When
/// every base has one, the user sees the files.
pub proof fn law_second_pass(s: ReviewView, info: Option<Result<SrcInfoView, Seq<char>>>)
    requires
        s.wf(),
        s.stage == Stage::NewSrcinfo,
    ensures
        ({
            let next = s.parsed(info);
            let name = s.bases[s.at as int][0].package_base;
            &&& next.stage == Stage::Failed <==> !(info is Some && info->0 is Ok)
            &&& info matches Some(Ok(info)) ==> table::content(next.srcinfos) == table::content(
                s.srcinfos,
            ).insert(name, info)
            &&& next.stage != Stage::Failed ==> next_unread(next)
            &&& next.stage == Stage::Failed ==> next.srcinfos == s.srcinfos
            &&& next.bases == s.bases && next.config == s.config && next.actions == s.actions
        }),
{
    if let Some(Ok(info)) = info {
        let name = bases::base_name(s.base());
        table::law_inserted(s.srcinfos, name, info);
        lemma_inserted(s.srcinfos, name, info);
        let more = ReviewView { srcinfos: table::inserted(s.srcinfos, name, info), ..s };
        assert forall|i: int| 0 <= i < s.at + 1 implies #[trigger] more.known(i) by {
            if i < s.at {
                assert(s.known(i));
            }
        }
        lemma_next_unread(more, s.at + 1);
    }
}

/// Whether the first base that has no `.SRCINFO` yet has its turn; where all have one, the
/// user sees the files.
pub open spec fn next_unread(s: ReviewView) -> bool {
    &&& s.at <= s.bases.len()
    &&& forall|i: int|
        0 <= i < s.at ==> table::has_key(s.srcinfos, (#[trigger] s.bases[i])[0].package_base)
    &&& s.at < s.bases.len() ==> s.stage == Stage::NewSrcinfo && !table::has_key(
        s.srcinfos,
        s.bases[s.at as int][0].package_base,
    )
    &&& s.at == s.bases.len() ==> s.stage == Stage::View
}

proof fn lemma_next_unread(s: ReviewView, from: nat)
    requires
        from <= s.bases.len(),
        forall|i: int| 0 <= i < from ==> #[trigger] s.known(i),
    ensures
        next_unread(s.second_pass(from)),
{
    lemma_next_unknown(s, from);
    let next = s.second_pass(from);
    assert forall|i: int| 0 <= i < next.at implies table::has_key(
        next.srcinfos,
        (#[trigger] next.bases[i])[0].package_base,
    ) by {
        assert(s.known(i));
    }
}

/// After the download the first base that has no `.SRCINFO` yet has its turn; nothing that
/// was read is read again, and nothing else changes.
pub proof fn law_after_download(s: ReviewView)
    requires
        s.wf(),
        s.stage == Stage::Download,
    ensures
        next_unread(s.done()),
        s.done().srcinfos == s.srcinfos && s.done().bases == s.bases,
{
    lemma_next_unread(s, 0);
}

/// What goes wrong with a `.SRCINFO` is told with the base that it belongs to: one that
/// cannot be read at any time, one that is not there only after the download.
pub proof fn law_read_failure(s: ReviewView, info: Option<Result<SrcInfoView, Seq<char>>>)
    requires
        s.wf(),
        s.reading(),
    ensures
        s.read_failure(info) is Some <==> s.parsed(info).stage == Stage::Failed,
        info is None && s.stage == Stage::NewSrcinfo ==> s.read_failure(info) == Some(
            ErrorView::NoSrcinfo(s.bases[s.at as int][0].package_base),
        ),
        info is None && s.stage == Stage::Srcinfo ==> s.read_failure(info) is None,
        info matches Some(Err(cause)) ==> s.read_failure(info) == Some(
            ErrorView::BadSrcinfo { base: bases::base_text(s.bases[s.at as int]), cause },
        ),
        info matches Some(Ok(_)) ==> s.read_failure(info) is None,
{
    if info is Some && info->0 is Ok && s.stage == Stage::NewSrcinfo {
        let name = bases::base_name(s.base());
        lemma_next_unknown(
            ReviewView { srcinfos: table::inserted(s.srcinfos, name, info->0->Ok_0), ..s },
            s.at + 1,
        );
    }
}

/// Where the user could not look at the files everything ends; otherwise the user is asked
/// whether to go on exactly where nothing from the repositories is installed.
pub proof fn law_viewed(s: ReviewView, success: bool)
    requires
        s.wf(),
        s.stage == Stage::View,
    ensures
        s.viewed(success).stage == Stage::Failed <==> !success,
        s.viewed(success).stage == Stage::Proceed <==> success && s.actions.install.len() == 0,
        s.viewed(success).stage == Stage::Seen <==> success && s.actions.install.len() > 0,
        (ReviewView { stage: s.stage, ..s.viewed(success) }) == s,
{
}

/// Of the packages from the repositories exactly those that were not installed before are
/// marked: for their own sake where they were asked for, for others' sake where they were
/// not.
pub proof fn law_repo_marked(s: ReviewView, installed: Seq<bool>, name: Seq<char>)
    requires
        s.wf(),
        s.stage == Stage::Repo,
        installed.len() == s.actions.install.len(),
    ensures
        ({
            let next = s.repo_known(installed);
            let install = s.actions.install;
            &&& next.exp.contains(name) <==> exists|i: int|
                0 <= i < install.len() && !installed[i] && (#[trigger] install[i]).target
                    && install[i].name == name
            &&& next.deps.contains(name) <==> exists|i: int|
                0 <= i < install.len() && !installed[i] && !(#[trigger] install[i]).target
                    && install[i].name == name
            &&& next.stage == Stage::RepoInstall
            &&& (ReviewView { deps: s.deps, exp: s.exp, stage: s.stage, ..next }) == s
        }),
{
    pacman::law_fresh_names(s.actions.install, installed, true, name);
    pacman::law_fresh_names(s.actions.install, installed, false, name);
}

/// The whole is done when building is done, and then only.
pub proof fn law_done_after_build(
    s: ReviewView,
    yes: bool,
    info: Option<Result<SrcInfoView, Seq<char>>>,
    success: bool,
)
    requires
        s.wf(),
    ensures
        s.plain() ==> (s.done().stage == Stage::Done <==> s.stage == Stage::Build),
        s.asking() ==> s.answered(yes).stage != Stage::Done,
        s.reading() ==> s.parsed(info).stage != Stage::Done,
        s.stage == Stage::View ==> s.viewed(success).stage != Stage::Done,
{
}

/// What is downloaded before the user sees the files: every base where the settings say
/// so, and otherwise exactly the bases without a `.SRCINFO` and those that are newer than
/// theirs, whatever packages they have.
pub proof fn law_downloaded_bases(s: ReviewView, newer: Seq<bool>, base: Seq<AurPackageView>)
    requires
        newer.len() == s.bases.len(),
    ensures
        s.config.redownload == "all"@ ==> s.download(newer).bases == s.bases,
        s.config.redownload != "all"@ ==> (s.download(newer).bases.contains(base) <==> exists|i: int|
            0 <= i < s.bases.len() && #[trigger] s.bases[i] == base && (newer[i]
                || !table::has_key(s.srcinfos, s.bases[i][0].package_base))),
{
    download::law_stale(s.bases, s.known_names(), newer, base);
    if exists|i: int|
        0 <= i < s.bases.len() && #[trigger] s.bases[i] == base && (newer[i] || !table::has_key(
            s.srcinfos,
            s.bases[i][0].package_base,
        )) {
        let i = choose|i: int|
            0 <= i < s.bases.len() && #[trigger] s.bases[i] == base && (newer[i]
                || !table::has_key(s.srcinfos, s.bases[i][0].package_base));
        assert(s.bases[i] == base);
    }
}

/// The versions that are compared are that of the base and that of the `.SRCINFO` that was
/// kept for it; without one there is nothing to compare.
pub proof fn law_compared(s: ReviewView, i: int)
    requires
        s.wf(),
        0 <= i < s.bases.len(),
    ensures
        ({
            let name = s.bases[i][0].package_base;
            let known = table::content(s.srcinfos);
            &&& s.versions(i) is Some <==> known.contains_key(name)
            &&& s.versions(i) matches Some(pair) ==> pair.0 == s.bases[i][0].version && pair.1
                == known[name].version()
        }),
{
}

/// A run begins with a question and with nothing read or marked. The bases are those of
/// the packages to build: a base is there exactly where a package to build belongs to it.
pub proof fn law_begins(
    config: ConfigView,
    actions: ActionsView,
    conflicts: Seq<ConflictView>,
    inner_conflicts: Seq<ConflictView>,
    name: Seq<char>,
)
    ensures
        ({
            let s = start(config, actions, conflicts, inner_conflicts);
            let build = actions.build_pkgs();
            &&& s.stage == Stage::Review
            &&& s.config == config && s.actions == actions
            &&& s.srcinfos.len() == 0 && s.deps.len() == 0 && s.exp.len() == 0
            &&& bases::tidy(s.bases)
            &&& (exists|i: int|
                0 <= i < s.bases.len() && (#[trigger] s.bases[i])[0].package_base == name)
                <==> exists|k: int|
                0 <= k < build.len() && (#[trigger] build[k]).pkg.package_base == name
            &&& s.conflicts.contains(name) <==> (exists|i: int|
                0 <= i < conflicts.len() && (#[trigger] conflicts[i]).pkg == name) || (exists|
                i: int,
            |
                0 <= i < inner_conflicts.len() && (#[trigger] inner_conflicts[i]).pkg == name)
        }),
{
    let s = start(config, actions, conflicts, inner_conflicts);
    let build = actions.build_pkgs();
    let pkgs = pkgs_of(build);
    bases::law_grouping(pkgs);
    actions::law_names_in_conflict(conflicts, inner_conflicts, name);
    if exists|i: int| 0 <= i < s.bases.len() && (#[trigger] s.bases[i])[0].package_base == name {
        let i = choose|i: int|
            0 <= i < s.bases.len() && (#[trigger] s.bases[i])[0].package_base == name;
        let pkg = s.bases[i][0];
        assert(s.bases[i].contains(pkg));
        bases::law_grouped_packages(pkgs, pkg);
        let k = choose|k: int| 0 <= k < pkgs.len() && pkgs[k] == pkg;
        assert(build[k].pkg.package_base == name);
    }
    if exists|k: int| 0 <= k < build.len() && (#[trigger] build[k]).pkg.package_base == name {
        let k = choose|k: int|
            0 <= k < build.len() && (#[trigger] build[k]).pkg.package_base == name;
        assert(bases::names_of(s.bases).contains(pkgs[k].package_base));
        let i = choose|i: int|
            0 <= i < bases::names_of(s.bases).len() && bases::names_of(s.bases)[i] == name;
        assert(s.bases[i][0].package_base == name);
    }
}

/// What others need is marked as such, and what was asked for as that; a run that came to
/// its end is a success, one that the user ended is not.
pub proof fn law_mark_call(s: ReviewView)
    ensures
        ({
            let call = s.mark_call();
            let n = s.config.globals.targets.len() as int;
            &&& s.stage == Stage::RepoDeps ==> call.op == "database"@ && call.args.last().key
                == "asdeps"@ && call.targets.skip(n) == s.deps
            &&& s.stage == Stage::RepoExplicit ==> call.op == "database"@ && call.args.last().key
                == "asexplicit"@ && call.targets.skip(n) == s.exp
        }),
        s.stage == Stage::Done ==> s.code() == 0,
        s.stage == Stage::Declined ==> s.code() == 1,
{
    pacman::law_reason_call(s.config, "asdeps"@, s.deps);
    pacman::law_reason_call(s.config, "asexplicit"@, s.exp);
}

/// What does not fit this machine is told name by name, each on a line of its own.
pub proof fn law_name_lines(names: Seq<Seq<char>>, name: Seq<char>)
    ensures
        name_lines(names.push(name)) == name_lines(names) + name + "\n"@,
        names.len() == 0 ==> name_lines(names).len() == 0,
{
    assert(names.push(name).drop_last() =~= names);
    assert(name_lines(names.push(name)) =~= name_lines(names) + name + "\n"@);
}

/// Something is told before a question exactly where it is about the machine, and then the
/// names of the packages are the end of it.
pub proof fn law_told_before_question(s: ReviewView)
    ensures
        s.notice() is Some <==> s.stage == Stage::Incompatible,
        s.notice() matches Some(told) ==> {
            let names = name_lines(s.incompatible());
            &&& told.len() > names.len()
            &&& told.skip(told.len() - names.len()) == names
        },
{
    reveal_strlit("The following packages are not compatible with your architecture:\n");
    if s.stage == Stage::Incompatible {
        let names = name_lines(s.incompatible());
        let told = s.notice()->0;
        assert(told.skip(told.len() - names.len()) =~= names);
    }
}

/// Whether one state follows on another by some report.
pub open spec fn follows(a: ReviewView, b: ReviewView) -> bool {
    ||| a.asking() && exists|yes: bool| b == a.answered(yes)
    ||| a.reading() && exists|info: Option<Result<SrcInfoView, Seq<char>>>| b == a.parsed(info)
    ||| a.stage == Stage::Versions && b == a.at_stage(Stage::Download)
    ||| a.stage == Stage::View && exists|success: bool| b == a.viewed(success)
    ||| a.stage == Stage::Repo && exists|installed: Seq<bool>| b == a.repo_known(installed)
    ||| a.plain() && b == a.done()
}

/// Whether the `i`th state of a run is followed by the next.
pub open spec fn step_at(run: Seq<ReviewView>, i: int) -> bool {
    follows(run[i], run[i + 1])
}

/// Whether the states are a run from the first question on.
pub open spec fn is_run(run: Seq<ReviewView>) -> bool {
    &&& run.len() > 0
    &&& run[0].wf()
    &&& run[0].stage == Stage::Review
    &&& forall|i: int| 0 <= i < run.len() - 1 ==> #[trigger] step_at(run, i)
}

/// Whether a run came by a stage up to its `n`th state.
pub open spec fn came_by(run: Seq<ReviewView>, n: int, stage: Stage) -> bool {
    exists|i: int| 0 <= i <= n && (#[trigger] run[i]).stage == stage
}

/// Every run that comes to building has installed the packages from the repositories, where
/// there are any; has fetched keys, where that is wanted; has shown the files to the user
/// and noted that they were seen; and has downloaded what was to be downloaded.
pub proof fn law_run_to_build(run: Seq<ReviewView>)
    requires
        is_run(run),
        run.last().stage == Stage::Build || run.last().stage == Stage::Done,
    ensures
        run[0].actions.install.len() > 0 ==> came_by(run, run.len() - 1, Stage::RepoInstall),
        run[0].config.pgp_fetch ==> came_by(run, run.len() - 1, Stage::Keys),
        came_by(run, run.len() - 1, Stage::Download),
        came_by(run, run.len() - 1, Stage::View),
        came_by(run, run.len() - 1, Stage::Seen),
        came_by(run, run.len() - 1, Stage::Build),
        run[0].actions.install.len() == 0 ==> came_by(run, run.len() - 1, Stage::Proceed),
        run.last().actions == run[0].actions && run.last().config == run[0].config,
{
    lemma_run(run, run.len() - 1);
}

/// How far a run has come, by what lies behind it.
spec fn behind(run: Seq<ReviewView>, n: int) -> bool {
    let s = run[n];
    let repo = s.stage == Stage::RepoInstall || s.stage == Stage::RepoDeps || s.stage
        == Stage::RepoExplicit;
    let built = s.stage == Stage::Build || s.stage == Stage::Done;
    let settled = built || repo || s.stage == Stage::Repo;
    let seen = settled || s.stage == Stage::Keys || s.stage == Stage::Incompatible || s.stage
        == Stage::Seen;
    let viewed = seen || s.stage == Stage::Proceed || s.stage == Stage::View;
    let loaded = viewed || s.stage == Stage::NewSrcinfo || s.stage == Stage::Download;
    &&& s.wf()
    &&& s.actions == run[0].actions
    &&& s.config == run[0].config
    &&& loaded ==> came_by(run, n, Stage::Download)
    &&& viewed ==> came_by(run, n, Stage::View)
    &&& seen && s.actions.install.len() == 0 ==> came_by(run, n, Stage::Proceed)
    &&& seen ==> came_by(run, n, Stage::Seen)
    &&& settled && s.config.pgp_fetch ==> came_by(run, n, Stage::Keys)
    &&& repo || built && s.actions.install.len() > 0 ==> came_by(run, n, Stage::RepoInstall)
    &&& built ==> came_by(run, n, Stage::Build)
}

proof fn lemma_still_behind(run: Seq<ReviewView>, n: int, stage: Stage)
    requires
        0 <= n < run.len() - 1,
    ensures
        came_by(run, n, stage) ==> came_by(run, n + 1, stage),
        run[n + 1].stage == stage ==> came_by(run, n + 1, stage),
{
    if came_by(run, n, stage) {
        let i = choose|i: int| 0 <= i <= n && (#[trigger] run[i]).stage == stage;
        assert(run[i].stage == stage);
    }
}

proof fn lemma_follows(a: ReviewView, b: ReviewView)
    requires
        a.wf(),
        follows(a, b),
    ensures
        b.wf(),
        b.actions == a.actions,
        b.config == a.config,
        match b.stage {
            Stage::Download => a.stage == Stage::Versions,
            Stage::NewSrcinfo => a.stage == Stage::Download || a.stage == Stage::NewSrcinfo,
            Stage::View => a.stage == Stage::Download || a.stage == Stage::NewSrcinfo,
            Stage::Proceed => a.stage == Stage::View && a.actions.install.len() == 0,
            Stage::Seen => a.stage == Stage::Proceed || a.stage == Stage::View
                && a.actions.install.len() > 0,
            Stage::Incompatible => a.stage == Stage::Seen,
            Stage::Keys => a.stage == Stage::Seen || a.stage == Stage::Incompatible,
            Stage::Repo => a.stage == Stage::Keys || !a.config.pgp_fetch && (a.stage == Stage::Seen
                || a.stage == Stage::Incompatible),
            Stage::RepoInstall => a.stage == Stage::Repo,
            Stage::RepoDeps => a.stage == Stage::RepoInstall,
            Stage::RepoExplicit => a.stage == Stage::RepoInstall || a.stage == Stage::RepoDeps,
            Stage::Build => a.stage == Stage::RepoInstall || a.stage == Stage::RepoDeps || a.stage
                == Stage::RepoExplicit || a.actions.install.len() == 0 && (a.stage == Stage::Keys
                || !a.config.pgp_fetch && (a.stage == Stage::Seen || a.stage
                == Stage::Incompatible)),
            Stage::Done => a.stage == Stage::Build,
            _ => true,
        },
{
    if a.asking() && exists|yes: bool| b == a.answered(yes) {
        let yes = choose|yes: bool| b == a.answered(yes);
        lemma_answered_wf(a, yes);
    } else if a.reading() && exists|info: Option<Result<SrcInfoView, Seq<char>>>| b == a.parsed(
        info,
    ) {
        let info = choose|info: Option<Result<SrcInfoView, Seq<char>>>| b == a.parsed(info);
        lemma_parsed_wf(a, info);
    } else if a.stage == Stage::View && exists|success: bool| b == a.viewed(success) {
        let success = choose|success: bool| b == a.viewed(success);
        law_reports_keep_wf(a, true, None, success, Seq::empty());
    } else if a.stage == Stage::Repo && exists|installed: Seq<bool>| b == a.repo_known(installed) {
        let installed = choose|installed: Seq<bool>| b == a.repo_known(installed);
        lemma_repo_wf(a, installed);
    } else {
        law_reports_keep_wf(a, true, None, true, Seq::empty());
    }
}

proof fn lemma_run(run: Seq<ReviewView>, n: int)
    requires
        is_run(run),
        0 <= n < run.len(),
    ensures
        behind(run, n),
    decreases n,
{
    if n > 0 {
        let m = n - 1;
        lemma_run(run, m);
        assert(step_at(run, m));
        lemma_follows(run[m], run[n]);
        lemma_still_behind(run, m, Stage::Download);
        lemma_still_behind(run, m, Stage::View);
        lemma_still_behind(run, m, Stage::Proceed);
        lemma_still_behind(run, m, Stage::Seen);
        lemma_still_behind(run, m, Stage::Keys);
        lemma_still_behind(run, m, Stage::RepoInstall);
        lemma_still_behind(run, m, Stage::Build);
    }
}

} // verus!

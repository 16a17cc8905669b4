//! Building packages base by base and installing what was built.
//!
//! [`Build`] says what has to be done next; whoever runs it does that and reports back.
use vstd::prelude::*;

use crate::args::Args;
use crate::args::ArgsView;
use crate::config::Config;
use crate::config::ConfigView;
use crate::error::Error;
use crate::error::ErrorView;
use crate::package::BuildBase;
use crate::package::BuildBaseView;
use crate::package_list::PackageList;
use crate::package_list::PackageListView;
use crate::pacman;
use crate::table::Table;
use crate::text;

verus! {

/// What has to be done next.
#[derive(Clone, Copy, Debug, PartialEq, Eq, Structural)]
pub enum Stage {
    /// Fetch what is known about the development packages.
    Devel,
    /// Find out which dependencies of the base's packages are installed.
    Dependencies,
    /// Install the queued package files.
    Install,
    /// Save what is known about the development packages.
    SaveDevel,
    /// Mark new packages as installed for others' sake.
    AsDeps,
    /// Mark new packages as installed for their own sake.
    AsExplicit,
    /// List the packages that the base makes.
    List,
    /// Find out which of the listed files are there.
    Probe,
    /// Download the sources of the base.
    Sources,
    /// Prepare the base, which may change its version.
    Bump,
    /// Build the base.
    Make,
    /// Find out which versions of the base's packages are installed.
    Installed,
    /// Keep what was fetched about the base, where it is a development package.
    Record,
    /// Nothing.
    Done,
    /// Nothing: it failed.
    Failed,
}

/// A run over the bases to build.
pub struct Build<'a> {
    config: &'a Config,
    build: &'a Vec<BuildBase>,
    /// The names of the packages that are in a conflict.
    conflicts: Vec<String>,
    /// The base whose turn it is.
    at: usize,
    /// The queued packages that are to be marked as installed for others' sake.
    deps: Vec<String>,
    /// The queued packages that are to be marked as installed for their own sake.
    exp: Vec<String>,
    /// The package files to install.
    queue: Vec<String>,
    /// Whether a queued package is in a conflict.
    conflict: bool,
    /// The packages that the base makes.
    list: PackageList,
    /// Whether the list was made after the version could change.
    fresh: bool,
    /// Whether one of the listed files is missing.
    needs_build: bool,
    stage: Stage,
}

#[verifier::ext_equal]
pub struct BuildView {
    pub config: ConfigView,
    pub build: Seq<BuildBaseView>,
    pub conflicts: Seq<Seq<char>>,
    pub at: nat,
    pub deps: Seq<Seq<char>>,
    pub exp: Seq<Seq<char>>,
    pub queue: Seq<Seq<char>>,
    pub conflict: bool,
    pub list: PackageListView,
    pub fresh: bool,
    pub needs_build: bool,
    pub stage: Stage,
}

impl<'a> View for Build<'a> {
    type V = BuildView;

    closed spec fn view(&self) -> BuildView {
        BuildView {
            config: self.config@,
            build: text::views(self.build@),
            conflicts: text::views(self.conflicts@),
            at: self.at as nat,
            deps: text::views(self.deps@),
            exp: text::views(self.exp@),
            queue: text::views(self.queue@),
            conflict: self.conflict,
            list: self.list@,
            fresh: self.fresh,
            needs_build: self.needs_build,
            stage: self.stage,
        }
    }
}

/// The endings of the names of development packages.
pub open spec fn devel_name(name: Seq<char>) -> bool {
    ||| text::ends_in(name, "-git"@)
    ||| text::ends_in(name, "-cvs"@)
    ||| text::ends_in(name, "-svn"@)
    ||| text::ends_in(name, "-bzr"@)
    ||| text::ends_in(name, "-darcs"@)
}

/// Whether one of the base's packages is a development package.
pub open spec fn devel_base(base: BuildBaseView) -> bool {
    exists|i: int| 0 <= i < base.pkgs.len() && devel_name((#[trigger] base.pkgs[i]).pkg.name)
}

/// Tells whether one of the base's packages is a development package: the version of
/// such a base is known only once it has been prepared.
pub fn is_devel(base: &BuildBase) -> (r: bool)
    ensures
        r == devel_base(base@),
{
    for i in 0..base.pkgs.len()
        invariant
            forall|j: int| 0 <= j < i ==> !devel_name((#[trigger] base@.pkgs[j]).pkg.name),
    {
        let name = base.pkgs[i].pkg.name.as_str();
        if text::ends_with(name, "-git") || text::ends_with(name, "-cvs") || text::ends_with(
            name,
            "-svn",
        ) || text::ends_with(name, "-bzr") || text::ends_with(name, "-darcs") {
            assert(devel_name(base@.pkgs[i as int].pkg.name));
            return true;
        }
    }
    false
}

/// A list without packages.
pub open spec fn no_list() -> PackageListView {
    PackageListView { paths: Map::empty(), version: Seq::empty() }
}

/// Whether the last of the packages has all its dependencies installed.
pub open spec fn satisfied(found: Seq<Seq<bool>>) -> bool {
    found.len() > 0 && !found.last().contains(false)
}

/// Whether the files can be looked at one after the other up to the first that is not
/// there: each of those is listed.
pub open spec fn probe_able(base: BuildBaseView, list: PackageListView, there: Seq<bool>) -> bool {
    forall|i: int|
        0 <= i < base.pkgs.len() && (forall|j: int| 0 <= j < i ==> #[trigger] there[j])
            ==> list.paths.contains_key((#[trigger] base.pkgs[i]).pkg.name)
}

/// The packages of a base on their way into the queue.
#[verifier::ext_equal]
pub struct Intake {
    pub deps: Seq<Seq<char>>,
    pub exp: Seq<Seq<char>>,
    pub queue: Seq<Seq<char>>,
    pub conflict: bool,
    /// The listed packages that are not in the queue yet.
    pub paths: Map<Seq<char>, Seq<char>>,
    /// How many packages were left out because they are installed in that version.
    pub skipped: nat,
    /// The package that is not in the list.
    pub missing: Option<Seq<char>>,
}

impl BuildView {
    /// The base whose turn it is.
    pub open spec fn base(self) -> BuildBaseView {
        self.build[self.at as int]
    }

    /// Whether a base has its turn.
    pub open spec fn in_base(self) -> bool {
        match self.stage {
            Stage::Dependencies | Stage::List | Stage::Probe | Stage::Sources | Stage::Bump
            | Stage::Make | Stage::Installed | Stage::Record => true,
            _ => false,
        }
    }

    /// Whether package files are being installed.
    pub open spec fn installing(self) -> bool {
        match self.stage {
            Stage::Install | Stage::SaveDevel | Stage::AsDeps | Stage::AsExplicit => true,
            _ => false,
        }
    }

    /// What holds at every stage.
    pub open spec fn wf(self) -> bool {
        &&& self.at <= self.build.len()
        &&& forall|i: int| 0 <= i < self.build.len() ==> (#[trigger] self.build[i]).wf()
        &&& self.in_base() ==> self.at < self.build.len()
        &&& self.installing() ==> self.queue.len() > 0
        &&& self.stage == Stage::AsDeps ==> self.deps.len() > 0
        &&& self.stage == Stage::AsExplicit ==> self.exp.len() > 0
        // every mark belongs to a queued file
        &&& self.deps.len() + self.exp.len() <= self.queue.len()
        &&& self.conflict ==> self.queue.len() > 0
        &&& self.stage == Stage::Done ==> self.at == self.build.len() && self.queue.len() == 0
        &&& self.stage == Stage::Devel ==> self.at == 0 && self.queue.len() == 0
        // without batches nothing waits while a base is built
        &&& !self.config.batch_install && self.in_base() && self.stage != Stage::Record
            ==> self.queue.len() == 0
    }

    /// Whether the base is to be built: a file is missing, or the settings ask for it.
    pub open spec fn wants_build(self) -> bool {
        ||| self.needs_build
        ||| self.config.rebuild == "yes"@ && self.base().has_target()
        ||| self.config.rebuild == "all"@
    }

    pub open spec fn at_stage(self, stage: Stage) -> BuildView {
        BuildView { stage, ..self }
    }

    /// The base's turn begins. What a development package makes is known only once it
    /// has been prepared; of any other it is listed first.
    pub open spec fn begin_base(self) -> BuildView {
        let next = BuildView { list: no_list(), fresh: false, needs_build: true, ..self };
        if devel_base(self.base()) {
            next.at_stage(Stage::Sources)
        } else {
            next.at_stage(Stage::List)
        }
    }

    /// With nothing left to install: the next base, or the end.
    pub open spec fn settle(self) -> BuildView {
        let next = BuildView { conflict: false, ..self };
        if self.at == self.build.len() {
            next.at_stage(Stage::Done)
        } else {
            next.begin_base()
        }
    }

    /// The queue is installed, where there is anything in it.
    pub open spec fn empty_queue(self) -> BuildView {
        if self.queue.len() == 0 {
            self.settle()
        } else {
            self.at_stage(Stage::Install)
        }
    }

    /// A base comes up, or the end: unless bases are installed in batches, the queue is
    /// installed first.
    pub open spec fn enter(self) -> BuildView {
        if self.at < self.build.len() && self.config.batch_install {
            self.at_stage(Stage::Dependencies)
        } else {
            self.empty_queue()
        }
    }

    /// The queue has been installed and marked.
    pub open spec fn cleared(self) -> BuildView {
        BuildView { deps: Seq::empty(), exp: Seq::empty(), queue: Seq::empty(), ..self }.settle()
    }

    pub open spec fn mark_exp(self) -> BuildView {
        if self.exp.len() > 0 {
            self.at_stage(Stage::AsExplicit)
        } else {
            self.cleared()
        }
    }

    pub open spec fn mark_deps(self) -> BuildView {
        if self.deps.len() > 0 {
            self.at_stage(Stage::AsDeps)
        } else {
            self.mark_exp()
        }
    }

    /// Whether the stage ends by itself, with nothing to report.
    pub open spec fn plain(self) -> bool {
        match self.stage {
            Stage::Dependencies | Stage::List | Stage::Probe | Stage::Installed | Stage::Done
            | Stage::Failed => false,
            _ => true,
        }
    }

    /// The stage was done.
    pub open spec fn done(self) -> BuildView {
        match self.stage {
            Stage::Devel => self.enter(),
            Stage::Install => if self.config.devel {
                self.at_stage(Stage::SaveDevel)
            } else {
                self.mark_deps()
            },
            Stage::SaveDevel => self.mark_deps(),
            Stage::AsDeps => self.mark_exp(),
            Stage::AsExplicit => self.cleared(),
            Stage::Sources => self.at_stage(Stage::Bump),
            Stage::Bump => BuildView { fresh: true, stage: Stage::List, ..self },
            Stage::Make => self.at_stage(Stage::Installed),
            Stage::Record => BuildView { at: self.at + 1, ..self }.enter(),
            _ => self,
        }
    }

    /// It is known which dependencies are installed. A base whose dependencies are all
    /// there need not wait for the queue.
    pub open spec fn dependencies(self, found: Seq<Seq<bool>>) -> BuildView {
        if satisfied(found) {
            self.begin_base()
        } else {
            self.empty_queue()
        }
    }

    /// The packages were listed.
    pub open spec fn listed(self, list: PackageListView) -> BuildView {
        BuildView { list, stage: Stage::Probe, ..self }
    }

    /// It is known which files are there.
    pub open spec fn probed(self, there: Seq<bool>) -> BuildView {
        let next = BuildView { needs_build: there.contains(false), ..self };
        if !next.wants_build() {
            next.at_stage(Stage::Installed)
        } else if self.fresh {
            next.at_stage(Stage::Make)
        } else {
            next.at_stage(Stage::Sources)
        }
    }

    /// Whether a package is left out, given the version of it that is installed: only what
    /// is needed is wanted, and that version is the listed one.
    pub open spec fn left_out(self, version: Option<Seq<char>>) -> bool {
        self.config.args.has_arg("needed"@, "needed"@) && version == Some(self.list.version)
    }

    /// The first `n` packages of the base went into the queue, given the version of each
    /// that is installed. Where only what is needed is wanted, a package that is installed
    /// in the listed version stays out. A package that was not installed at all is marked.
    pub open spec fn intake(self, versions: Seq<Option<Seq<char>>>, n: nat) -> Intake
        decreases n,
    {
        if n == 0 {
            Intake {
                deps: self.deps,
                exp: self.exp,
                queue: self.queue,
                conflict: self.conflict,
                paths: self.list.paths,
                skipped: 0,
                missing: None,
            }
        } else {
            let before = self.intake(versions, (n - 1) as nat);
            let pkg = self.base().pkgs[n - 1];
            let version = versions[n - 1];
            let name = pkg.pkg.name;
            if before.missing is Some {
                before
            } else if self.left_out(version) {
                Intake { skipped: before.skipped + 1, ..before }
            } else if !before.paths.contains_key(name) {
                Intake { missing: Some(name), ..before }
            } else {
                Intake {
                    deps: if version is None && !pkg.target {
                        before.deps.push(name)
                    } else {
                        before.deps
                    },
                    exp: if version is None && pkg.target {
                        before.exp.push(name)
                    } else {
                        before.exp
                    },
                    queue: before.queue.push(before.paths[name]),
                    conflict: before.conflict || self.base().has_name_in(self.conflicts),
                    paths: before.paths.remove(name),
                    ..before
                }
            }
        }
    }

    /// It is known which versions are installed.
    pub open spec fn installed(self, versions: Seq<Option<Seq<char>>>) -> BuildView {
        let all = self.intake(versions, self.base().pkgs.len());
        let list = PackageListView { paths: all.paths, ..self.list };
        if all.missing is Some {
            BuildView { list, stage: Stage::Failed, ..self }
        } else {
            BuildView {
                deps: all.deps,
                exp: all.exp,
                queue: all.queue,
                conflict: all.conflict,
                list,
                stage: Stage::Record,
                ..self
            }
        }
    }

    /// The message that goes with the stage.
    pub open spec fn notice(self) -> Option<Seq<char>> {
        match self.stage {
            Stage::Devel => Some("Fetching devel info..."@),
            Stage::List => Some(self.base().text() + ": parsing pkg list..."@),
            Stage::Installed => if self.needs_build {
                None
            } else {
                Some(self.skip_notice() + "build"@)
            },
            _ => None,
        }
    }

    /// The base is up to date, and something is skipped.
    pub open spec fn skip_notice(self) -> Seq<char> {
        self.base().package_base() + "-"@ + self.base().version() + " is up to date -- skipping "@
    }

    /// What is told where the stage's command fails.
    pub open spec fn failure(self) -> Option<ErrorView> {
        match self.stage {
            Stage::Sources => Some(ErrorView::Download(self.base().text())),
            Stage::Bump | Stage::Make => Some(ErrorView::Build(self.base().text())),
            _ => None,
        }
    }

    /// The options that makepkg gets at the stage.
    pub open spec fn makepkg(self) -> Seq<Seq<char>> {
        match self.stage {
            Stage::List => seq!["--packagelist"@],
            Stage::Sources => seq!["--verifysource"@, "-ACcf"@],
            Stage::Bump => seq!["-ofCA"@],
            Stage::Make => seq!["-cfeA"@, "--noconfirm"@, "--noprepare"@, "--holdver"@],
            _ => Seq::empty(),
        }
    }

    /// The file of the base's `i`th package, as far as it is listed.
    pub open spec fn file(self, i: int) -> Option<Seq<char>> {
        if self.list.paths.contains_key(self.base().pkgs[i].pkg.name) {
            Some(self.list.paths[self.base().pkgs[i].pkg.name])
        } else {
            None
        }
    }

    /// The call that installs the queue.
    pub open spec fn install_call(self) -> ArgsView {
        pacman::upgrade_call(self.config, self.queue, self.conflict)
    }

    /// The call that marks packages at the stage.
    pub open spec fn mark_call(self) -> ArgsView {
        if self.stage == Stage::AsDeps {
            pacman::reason_call(self.config, "asdeps"@, self.deps)
        } else {
            pacman::reason_call(self.config, "asexplicit"@, self.exp)
        }
    }

    /// How far the stage is from the end of the base's turn.
    pub open spec fn rank(self) -> int {
        match self.stage {
            Stage::Devel => 20,
            Stage::Dependencies => 19,
            Stage::Install => 18,
            Stage::SaveDevel => 17,
            Stage::AsDeps => 16,
            Stage::AsExplicit => 15,
            Stage::List => if self.fresh { 10 } else { 14 },
            Stage::Probe => if self.fresh { 9 } else { 13 },
            Stage::Sources => 12,
            Stage::Bump => 11,
            Stage::Make => 8,
            Stage::Installed => 7,
            Stage::Record => 6,
            Stage::Done => 0,
            Stage::Failed => 0,
        }
    }

    /// A bound on the stages that are left.
    pub open spec fn left(self) -> int {
        (self.build.len() - self.at) * 20 + self.rank()
    }
}

pub proof fn lemma_intake(s: BuildView, versions: Seq<Option<Seq<char>>>, n: nat)
    requires
        s.deps.len() + s.exp.len() <= s.queue.len(),
        s.conflict ==> s.queue.len() > 0,
    ensures
        ({
            let all = s.intake(versions, n);
            &&& all.deps.len() + all.exp.len() <= all.queue.len()
            &&& all.conflict ==> all.queue.len() > 0
            &&& s.queue.is_prefix_of(all.queue)
        }),
    decreases n,
{
    if n > 0 {
        lemma_intake(s, versions, (n - 1) as nat);
    }
}

pub proof fn lemma_intake_stops(
    s: BuildView,
    versions: Seq<Option<Seq<char>>>,
    n: nat,
    m: nat,
)
    requires
        n <= m,
        s.intake(versions, n).missing is Some,
    ensures
        s.intake(versions, m) == s.intake(versions, n),
    decreases m,
{
    if n < m {
        lemma_intake_stops(s, versions, n, (m - 1) as nat);
    }
}

proof fn lemma_settle_wf(s: BuildView)
    requires
        s.at <= s.build.len(),
        forall|i: int| 0 <= i < s.build.len() ==> (#[trigger] s.build[i]).wf(),
        s.queue.len() == 0,
        s.deps.len() + s.exp.len() == 0,
    ensures
        s.settle().wf(),
{
}

proof fn lemma_enter_wf(s: BuildView)
    requires
        s.at <= s.build.len(),
        forall|i: int| 0 <= i < s.build.len() ==> (#[trigger] s.build[i]).wf(),
        s.deps.len() + s.exp.len() <= s.queue.len(),
        s.conflict ==> s.queue.len() > 0,
    ensures
        s.empty_queue().wf(),
        s.enter().wf(),
{
}

proof fn lemma_mark_wf(s: BuildView)
    requires
        s.at <= s.build.len(),
        forall|i: int| 0 <= i < s.build.len() ==> (#[trigger] s.build[i]).wf(),
        s.deps.len() + s.exp.len() <= s.queue.len(),
        s.queue.len() > 0,
    ensures
        s.mark_deps().wf(),
        s.mark_exp().wf(),
        s.cleared().wf(),
{
    lemma_settle_wf(
        BuildView { deps: Seq::empty(), exp: Seq::empty(), queue: Seq::empty(), ..s },
    );
}

/// What holds at every stage still holds when the stage is done.
pub proof fn law_done_keeps_wf(s: BuildView)
    requires
        s.wf(),
        s.plain(),
    ensures
        s.done().wf(),
{
    match s.stage {
        Stage::Devel => lemma_enter_wf(s),
        Stage::Record => lemma_enter_wf(BuildView { at: s.at + 1, ..s }),
        Stage::Install | Stage::SaveDevel | Stage::AsDeps | Stage::AsExplicit => lemma_mark_wf(s),
        _ => {},
    }
}

/// The beginning: what is known about development packages is fetched first, where that is
/// wanted.
pub open spec fn start(
    config: ConfigView,
    build: Seq<BuildBaseView>,
    conflicts: Seq<Seq<char>>,
) -> BuildView {
    let start = BuildView {
        config,
        build,
        conflicts,
        at: 0,
        deps: Seq::empty(),
        exp: Seq::empty(),
        queue: Seq::empty(),
        conflict: false,
        list: no_list(),
        fresh: false,
        needs_build: true,
        stage: Stage::Devel,
    };
    if config.devel {
        start
    } else {
        start.enter()
    }
}

/// Starts building. The conflicts are the names of the packages that are in one.
pub fn build_install_pkgbuilds<'a>(
    config: &'a Config,
    build: &'a Vec<BuildBase>,
    conflicts: Vec<String>,
) -> (r: Build<'a>)
    requires
        forall|i: int| 0 <= i < build@.len() ==> (#[trigger] build@[i])@.wf(),
    ensures
        r.wf(),
        r@ == start(config@, text::views(build@), text::views(conflicts@)),
{
    let mut r = Build {
        config,
        build,
        conflicts,
        at: 0,
        deps: Vec::new(),
        exp: Vec::new(),
        queue: Vec::new(),
        conflict: false,
        list: PackageList { paths: Table::new(), version: String::new() },
        fresh: false,
        needs_build: true,
        stage: Stage::Devel,
    };
    assert(text::views(r.deps@) =~= Seq::<Seq<char>>::empty());
    assert(text::views(r.exp@) =~= Seq::<Seq<char>>::empty());
    assert(text::views(r.queue@) =~= Seq::<Seq<char>>::empty());
    assert(r.list@ =~= no_list());
    if !config.devel {
        r.enter();
    }
    r
}

impl<'a> Build<'a> {
    /// No package is listed twice.
    pub closed spec fn list_wf(&self) -> bool {
        self.list.paths.wf()
    }

    /// What holds at every stage.
    pub open spec fn wf(&self) -> bool {
        self.list_wf() && self@.wf()
    }

    /// What has to be done next.
    pub fn stage(&self) -> (r: Stage)
        ensures
            r == self@.stage,
    {
        self.stage
    }

    /// The base whose turn it is.
    pub fn base(&self) -> (r: &BuildBase)
        requires
            self.wf(),
            self@.in_base(),
        ensures
            r@ == self@.base(),
            r@.wf(),
    {
        assert(self@.build[self.at as int] == self.build[self.at as int]@);
        &self.build[self.at]
    }

    fn begin_base(&mut self)
        requires
            old(self).list.paths.wf(),
            old(self)@.at < old(self)@.build.len(),
        ensures
            final(self).list.paths.wf(),
            final(self)@ == old(self)@.begin_base(),
    {
        self.list = PackageList { paths: Table::new(), version: String::new() };
        self.fresh = false;
        self.needs_build = true;
        assert(self.list@ =~= no_list());
        assert(self@.build[self.at as int] == self.build[self.at as int]@);
        if is_devel(&self.build[self.at]) {
            self.stage = Stage::Sources;
        } else {
            self.stage = Stage::List;
        }
    }

    fn settle(&mut self)
        requires
            old(self).list.paths.wf(),
            old(self)@.at <= old(self)@.build.len(),
        ensures
            final(self).list.paths.wf(),
            final(self)@ == old(self)@.settle(),
    {
        self.conflict = false;
        if self.at == self.build.len() {
            self.stage = Stage::Done;
        } else {
            self.begin_base();
        }
    }

    fn empty_queue(&mut self)
        requires
            old(self).list.paths.wf(),
            old(self)@.at <= old(self)@.build.len(),
        ensures
            final(self).list.paths.wf(),
            final(self)@ == old(self)@.empty_queue(),
    {
        if self.queue.len() == 0 {
            self.settle();
        } else {
            self.stage = Stage::Install;
        }
    }

    fn enter(&mut self)
        requires
            old(self).list.paths.wf(),
            old(self)@.at <= old(self)@.build.len(),
        ensures
            final(self).list.paths.wf(),
            final(self)@ == old(self)@.enter(),
    {
        if self.at < self.build.len() && self.config.batch_install {
            self.stage = Stage::Dependencies;
        } else {
            self.empty_queue();
        }
    }

    fn mark_exp(&mut self)
        requires
            old(self).list.paths.wf(),
            old(self)@.at <= old(self)@.build.len(),
        ensures
            final(self).list.paths.wf(),
            final(self)@ == old(self)@.mark_exp(),
    {
        if self.exp.len() > 0 {
            self.stage = Stage::AsExplicit;
        } else {
            self.clear();
        }
    }

    fn clear(&mut self)
        requires
            old(self).list.paths.wf(),
            old(self)@.at <= old(self)@.build.len(),
        ensures
            final(self).list.paths.wf(),
            final(self)@ == old(self)@.cleared(),
    {
        self.deps = Vec::new();
        self.exp = Vec::new();
        self.queue = Vec::new();
        assert(text::views(self.deps@) =~= Seq::<Seq<char>>::empty());
        assert(text::views(self.exp@) =~= Seq::<Seq<char>>::empty());
        assert(text::views(self.queue@) =~= Seq::<Seq<char>>::empty());
        self.settle();
    }

    fn mark_deps(&mut self)
        requires
            old(self).list.paths.wf(),
            old(self)@.at <= old(self)@.build.len(),
        ensures
            final(self).list.paths.wf(),
            final(self)@ == old(self)@.mark_deps(),
    {
        if self.deps.len() > 0 {
            self.stage = Stage::AsDeps;
        } else {
            self.mark_exp();
        }
    }

    /// Reports that the stage was done.
    pub fn done(&mut self)
        requires
            old(self).wf(),
            old(self)@.plain(),
        ensures
            final(self).wf(),
            final(self)@ == old(self)@.done(),
    {
        proof {
            law_done_keeps_wf(self@);
        }
        match self.stage {
            Stage::Devel => self.enter(),
            Stage::Install => {
                if self.config.devel {
                    self.stage = Stage::SaveDevel;
                } else {
                    self.mark_deps();
                }
            },
            Stage::SaveDevel => self.mark_deps(),
            Stage::AsDeps => self.mark_exp(),
            Stage::AsExplicit => self.clear(),
            Stage::Sources => {
                self.stage = Stage::Bump;
            },
            Stage::Bump => {
                self.fresh = true;
                self.stage = Stage::List;
            },
            Stage::Make => {
                self.stage = Stage::Installed;
            },
            Stage::Record => {
                assert(self.at < self.build.len());
                self.at = self.at + 1;
                self.enter();
            },
            _ => {},
        }
    }

    /// Reports, for each package of the base, which of its dependencies are installed.
    pub fn dependencies(&mut self, found: &Vec<Vec<bool>>)
        requires
            old(self).wf(),
            old(self)@.stage == Stage::Dependencies,
            found@.len() == old(self)@.base().pkgs.len(),
        ensures
            final(self).wf(),
            final(self)@ == old(self)@.dependencies(
                found@.map_values(|deps: Vec<bool>| deps@),
            ),
    {
        let last = &found[found.len() - 1];
        let mut all = true;
        for i in 0..last.len()
            invariant
                all == !last@.take(i as int).contains(false),
        {
            proof {
                text::lemma_take_push(last@, i as int);
                let less = last@.take(i as int);
                let more = last@.take(i + 1);
                if less.contains(false) {
                    let k = choose|k: int| 0 <= k < less.len() && less[k] == false;
                    assert(more[k] == false);
                }
                if more.contains(false) && !less.contains(false) {
                    let k = choose|k: int| 0 <= k < more.len() && more[k] == false;
                    if k < i {
                        assert(less[k] == false);
                    }
                }
                assert(more[i as int] == last@[i as int]);
            }
            if !last[i] {
                all = false;
            }
        }
        assert(last@.take(last@.len() as int) =~= last@);
        if all {
            self.begin_base();
        } else {
            self.empty_queue();
        }
    }

    /// Reports the packages that the base makes.
    pub fn listed(&mut self, list: PackageList)
        requires
            old(self).wf(),
            old(self)@.stage == Stage::List,
            list.paths.wf(),
        ensures
            final(self).wf(),
            final(self)@ == old(self)@.listed(list@),
    {
        self.list = list;
        self.stage = Stage::Probe;
    }

    /// The file of each of the base's packages, as far as it is listed.
    pub fn files(&self) -> (r: Vec<Option<String>>)
        requires
            self.wf(),
            self@.stage == Stage::Probe,
        ensures
            r@.len() == self@.base().pkgs.len(),
            forall|i: int|
                0 <= i < r@.len() ==> text::option_view(#[trigger] r@[i]) == self@.file(i),
    {
        let base = self.base();
        let mut out: Vec<Option<String>> = Vec::new();
        for i in 0..base.pkgs.len()
            invariant
                base@ == self@.base(),
                self.list.paths.wf(),
                out@.len() == i,
                forall|j: int|
                    0 <= j < i ==> text::option_view(#[trigger] out@[j]) == self@.file(j),
        {
            let name = base.pkgs[i].pkg.name.as_str();
            assert(self@.base().pkgs[i as int].pkg.name == name@);
            let path = match self.list.paths.get(name) {
                Some(path) => Some(path.clone()),
                None => None,
            };
            out.push(path);
        }
        out
    }

    /// Whether the files can be looked at one after the other up to the first that is
    /// not there.
    pub fn can_probe(&self, there: &Vec<bool>) -> (r: bool)
        requires
            self.wf(),
            self@.stage == Stage::Probe,
            there@.len() == self@.base().pkgs.len(),
        ensures
            r == probe_able(self@.base(), self@.list, there@),
    {
        let base = self.base();
        for i in 0..base.pkgs.len()
            invariant
                base@ == self@.base(),
                there@.len() == base@.pkgs.len(),
                self.list.paths.wf(),
                forall|j: int| 0 <= j < i ==> #[trigger] there@[j],
                forall|j: int|
                    0 <= j < i ==> self@.list.paths.contains_key(
                        (#[trigger] self@.base().pkgs[j]).pkg.name,
                    ),
        {
            assert(self@.base().pkgs[i as int].pkg.name == base.pkgs[i as int].pkg.name@);
            if !self.list.paths.contains_key(base.pkgs[i].pkg.name.as_str()) {
                assert(!self@.list.paths.contains_key(self@.base().pkgs[i as int].pkg.name));
                return false;
            }
            if !there[i] {
                return true;
            }
        }
        true
    }

    /// Reports, for each of the base's packages, whether its file is there.
    pub fn probed(&mut self, there: &Vec<bool>)
        requires
            old(self).wf(),
            old(self)@.stage == Stage::Probe,
            there@.len() == old(self)@.base().pkgs.len(),
            probe_able(old(self)@.base(), old(self)@.list, there@),
        ensures
            final(self).wf(),
            final(self)@ == old(self)@.probed(there@),
    {
        let mut missing = false;
        for i in 0..there.len()
            invariant
                missing == exists|j: int| 0 <= j < i && !(#[trigger] there@[j]),
        {
            if !there[i] {
                missing = true;
            }
        }
        proof {
            if missing {
                let j = choose|j: int| 0 <= j < there@.len() && !(#[trigger] there@[j]);
                assert(there@[j] == false);
                assert(there@.contains(false));
            }
        }
        self.needs_build = missing;
        assert(self@.build[self.at as int] == self.build[self.at as int]@);
        let base = &self.build[self.at];
        let wanted = missing || (text::same(self.config.rebuild.as_str(), "yes")
            && base.has_target()) || text::same(self.config.rebuild.as_str(), "all");
        if !wanted {
            self.stage = Stage::Installed;
        } else if self.fresh {
            self.stage = Stage::Make;
        } else {
            self.stage = Stage::Sources;
        }
    }

    /// Reports, for each of the base's packages, which version of it is installed. Gives
    /// the messages about the packages that are skipped, and the failure where a package
    /// is not listed.
    pub fn installed(&mut self, versions: &Vec<Option<String>>) -> (r: (
        Vec<String>,
        Result<(), Error>,
    ))
        requires
            old(self).wf(),
            old(self)@.stage == Stage::Installed,
            versions@.len() == old(self)@.base().pkgs.len(),
        ensures
            final(self).wf(),
            ({
                let s = old(self)@;
                let known = versions@.map_values(
                    |version: Option<String>| text::option_view(version),
                );
                let all = s.intake(known, s.base().pkgs.len());
                &&& final(self)@ == s.installed(known)
                &&& text::views(r.0@) == Seq::new(
                    all.skipped,
                    |i: int| s.skip_notice() + "install"@,
                )
                &&& match r.1 {
                    Ok(()) => all.missing is None,
                    Err(e) => all.missing is Some && e@ == (ErrorView::NotListed {
                        pkg: all.missing->0,
                        base: s.base().text(),
                    }),
                }
            }),
    {
        let ghost s = self@;
        let ghost known = versions@.map_values(
            |version: Option<String>| text::option_view(version),
        );
        assert(self@.build[self.at as int] == self.build[self.at as int]@);
        let base = &self.build[self.at];
        let needed = self.config.args.has_arg("needed", "needed");
        let in_conflict = base.has_name_in(&self.conflicts);
        let mut messages: Vec<String> = Vec::new();
        let mut deps = text::copy_texts(&self.deps);
        let mut exp = text::copy_texts(&self.exp);
        let mut queue = text::copy_texts(&self.queue);
        let mut conflict = self.conflict;
        let mut paths: Table<String> = Table::new();
        std::mem::swap(&mut paths, &mut self.list.paths);
        let ghost in_list = paths@.map_values(|path: String| path@);
        assert(in_list == s.list.paths);
        assert(text::views(messages@) =~= Seq::new(0, |i: int| s.skip_notice() + "install"@));
        for i in 0..base.pkgs.len()
            invariant
                s == old(self)@,
                s.wf(),
                base@ == s.base(),
                base@.wf(),
                known == versions@.map_values(
                    |version: Option<String>| text::option_view(version),
                ),
                versions@.len() == base@.pkgs.len(),
                needed == s.config.args.has_arg("needed"@, "needed"@),
                in_conflict == s.base().has_name_in(s.conflicts),
                self.list.version@ == s.list.version,
                self.list.paths.wf(),
                (BuildView { list: s.list, ..self@ }) == s,
                paths.wf(),
                ({
                    let now = s.intake(known, i as nat);
                    &&& now.missing is None
                    &&& text::views(deps@) == now.deps
                    &&& text::views(exp@) == now.exp
                    &&& text::views(queue@) == now.queue
                    &&& conflict == now.conflict
                    &&& paths@.map_values(|path: String| path@) == now.paths
                    &&& text::views(messages@) == Seq::new(
                        now.skipped,
                        |k: int| s.skip_notice() + "install"@,
                    )
                }),
        {
            let pkg = &base.pkgs[i];
            let ghost now = s.intake(known, i as nat);
            assert(s.base().pkgs[i as int] == pkg@);
            assert(known[i as int] == text::option_view(versions@[i as int]));
            let skip = match &versions[i] {
                Some(version) => needed && text::same(
                    version.as_str(),
                    self.list.version.as_str(),
                ),
                None => false,
            };
            if skip {
                let mut message = base.package_base().to_owned();
                message.append("-");
                message.append(base.version());
                message.append(" is up to date -- skipping ");
                message.append("install");
                proof {
                    text::lemma_views_push(messages@, message);
                }
                messages.push(message);
                assert(text::views(messages@) =~= Seq::new(
                    now.skipped + 1,
                    |k: int| s.skip_notice() + "install"@,
                ));
            } else {
                let name = pkg.pkg.name.clone();
                let path = match paths.remove(name.as_str()) {
                    Some(path) => path,
                    None => {
                        proof {
                            let all = s.intake(known, (i + 1) as nat);
                            assert(all.missing == Some(name@));
                            assert(paths@.map_values(|path: String| path@) =~= all.paths);
                            lemma_intake_stops(s, known, (i + 1) as nat, s.base().pkgs.len());
                        }
                        self.list.paths = paths;
                        self.stage = Stage::Failed;
                        return (messages, Err(Error::NotListed { pkg: name, base: base.text() }));
                    },
                };
                proof {
                    text::lemma_views_push(queue@, path);
                    text::lemma_views_push(deps@, name);
                    text::lemma_views_push(exp@, name);
                    assert(paths@.map_values(|path: String| path@) =~= now.paths.remove(name@));
                }
                if versions[i].is_none() {
                    if pkg.target {
                        exp.push(name);
                    } else {
                        deps.push(name);
                    }
                }
                conflict = conflict || in_conflict;
                queue.push(path);
            }
        }
        proof {
            lemma_intake(s, known, s.base().pkgs.len());
        }
        self.list.paths = paths;
        self.deps = deps;
        self.exp = exp;
        self.queue = queue;
        self.conflict = conflict;
        self.stage = Stage::Record;
        (messages, Ok(()))
    }

    /// For each package of the base, everything that it depends on.
    pub fn wanted(&self) -> (r: Vec<Vec<String>>)
        requires
            self.wf(),
            self@.stage == Stage::Dependencies,
        ensures
            r@.len() == self@.base().pkgs.len(),
            forall|i: int|
                0 <= i < r@.len() ==> text::views((#[trigger] r@[i])@)
                    == self@.base().pkgs[i].pkg.all_depends(),
    {
        let base = self.base();
        let mut out: Vec<Vec<String>> = Vec::new();
        for i in 0..base.pkgs.len()
            invariant
                base@ == self@.base(),
                out@.len() == i,
                forall|j: int|
                    0 <= j < i ==> text::views((#[trigger] out@[j])@)
                        == self@.base().pkgs[j].pkg.all_depends(),
        {
            assert(self@.base().pkgs[i as int] == base.pkgs[i as int]@);
            out.push(base.pkgs[i].pkg.all_depends());
        }
        out
    }

    /// The call that installs the queue.
    pub fn install_call(&self) -> (r: Args)
        requires
            self.wf(),
            self@.stage == Stage::Install,
        ensures
            r@ == self@.install_call(),
    {
        match pacman::do_install(self.config, &self.queue, self.conflict) {
            Some(args) => args,
            None => self.config.pacman_globals(),
        }
    }

    /// The call that marks packages at the stage.
    pub fn mark_call(&self) -> (r: Args)
        requires
            self.wf(),
            self@.stage == Stage::AsDeps || self@.stage == Stage::AsExplicit,
        ensures
            r@ == self@.mark_call(),
    {
        let call = if self.stage == Stage::AsDeps {
            pacman::asdeps(self.config, &self.deps)
        } else {
            pacman::asexp(self.config, &self.exp)
        };
        match call {
            Some(args) => args,
            None => self.config.pacman_globals(),
        }
    }

    /// The options that makepkg gets at the stage.
    pub fn makepkg(&self) -> (r: Vec<&'static str>)
        ensures
            r@.map_values(|option: &'static str| option@) == self@.makepkg(),
    {
        let r: Vec<&'static str> = match self.stage {
            Stage::List => vec!["--packagelist"],
            Stage::Sources => vec!["--verifysource", "-ACcf"],
            Stage::Bump => vec!["-ofCA"],
            Stage::Make => vec!["-cfeA", "--noconfirm", "--noprepare", "--holdver"],
            _ => Vec::new(),
        };
        assert(r@.map_values(|option: &'static str| option@) =~= self@.makepkg());
        r
    }

    /// The message that goes with the stage.
    pub fn notice(&self) -> (r: Option<String>)
        requires
            self.wf(),
        ensures
            text::option_view(r) == self@.notice(),
    {
        match self.stage {
            Stage::Devel => Some("Fetching devel info...".to_owned()),
            Stage::List => {
                let mut out = self.base().text();
                out.append(": parsing pkg list...");
                Some(out)
            },
            Stage::Installed => {
                if self.needs_build {
                    None
                } else {
                    let base = self.base();
                    let mut out = base.package_base().to_owned();
                    out.append("-");
                    out.append(base.version());
                    out.append(" is up to date -- skipping ");
                    out.append("build");
                    Some(out)
                }
            },
            _ => None,
        }
    }

    /// What is told where the stage's command fails.
    pub fn failure(&self) -> (r: Option<Error>)
        requires
            self.wf(),
        ensures
            text::option_view(r) == self@.failure(),
    {
        match self.stage {
            Stage::Sources => Some(Error::Download(self.base().text())),
            Stage::Bump => Some(Error::Build(self.base().text())),
            Stage::Make => Some(Error::Build(self.base().text())),
            _ => None,
        }
    }
}

/// Every report brings the end closer.
pub proof fn law_progress(
    s: BuildView,
    found: Seq<Seq<bool>>,
    list: PackageListView,
    there: Seq<bool>,
    versions: Seq<Option<Seq<char>>>,
)
    requires
        s.wf(),
    ensures
        s.left() >= 0,
        s.plain() ==> s.done().left() < s.left(),
        s.stage == Stage::Dependencies ==> s.dependencies(found).left() < s.left(),
        s.stage == Stage::List ==> s.listed(list).left() < s.left(),
        s.stage == Stage::Probe ==> s.probed(there).left() < s.left(),
        s.stage == Stage::Installed ==> s.installed(versions).left() < s.left(),
{
}

/// When everything is done, every base has had its turn, and nothing that was built is
/// left without being installed and marked.
pub proof fn law_done_leaves_nothing(s: BuildView)
    requires
        s.wf(),
        s.stage == Stage::Done,
    ensures
        s.at == s.build.len(),
        s.queue.len() == 0,
        s.deps.len() == 0,
        s.exp.len() == 0,
{
}

/// The packages whose installation is being marked are those whose files were handed to
/// the package manager: neither the queue nor the marks change in between. Afterwards
/// nothing is left over.
pub proof fn law_install_then_mark(s: BuildView)
    requires
        s.wf(),
        s.installing(),
    ensures
        s.done().installing() ==> {
            &&& s.done().queue == s.queue
            &&& s.done().deps == s.deps
            &&& s.done().exp == s.exp
            &&& s.done().conflict == s.conflict
        },
        !s.done().installing() ==> s.done().queue.len() == 0 && s.done().deps.len() == 0
            && s.done().exp.len() == 0 && !s.done().conflict,
{
}

/// A base leaves the marks of the queued packages alone and appends its own; the queue
/// grows by one file for each package that is neither skipped nor missing.
pub proof fn law_intake_appends(s: BuildView, versions: Seq<Option<Seq<char>>>, n: nat)
    requires
        n <= s.base().pkgs.len(),
        s.deps.len() + s.exp.len() <= s.queue.len(),
        s.conflict ==> s.queue.len() > 0,
    ensures
        ({
            let all = s.intake(versions, n);
            &&& s.queue.is_prefix_of(all.queue)
            &&& s.deps.is_prefix_of(all.deps)
            &&& s.exp.is_prefix_of(all.exp)
            &&& all.missing is None ==> all.queue.len() + all.skipped == s.queue.len() + n
        }),
    decreases n,
{
    if n > 0 {
        law_intake_appends(s, versions, (n - 1) as nat);
    }
}

/// A base is built where one of its files is missing, and where all are there only if
/// the settings ask for it.
pub proof fn law_built_when_missing(s: BuildView, there: Seq<bool>)
    requires
        s.wf(),
        s.stage == Stage::Probe,
    ensures
        there.contains(false) ==> s.probed(there).stage != Stage::Installed,
        !there.contains(false) && s.config.rebuild != "all"@ && !(s.config.rebuild == "yes"@
            && s.base().has_target()) ==> s.probed(there).stage == Stage::Installed,
{
}

/// A conflict of a package is not forgotten: where a base with a package in a conflict
/// puts a file into the queue, the queue counts as being in a conflict.
pub proof fn law_conflict_is_kept(s: BuildView, versions: Seq<Option<Seq<char>>>, n: nat)
    requires
        s.base().has_name_in(s.conflicts),
    ensures
        ({
            let all = s.intake(versions, n);
            &&& s.conflict ==> all.conflict
            &&& all.queue.len() > s.queue.len() ==> all.conflict
            &&& all.queue.len() >= s.queue.len()
        }),
    decreases n,
{
    if n > 0 {
        law_conflict_is_kept(s, versions, (n - 1) as nat);
    }
}

/// Unless packages are installed in batches, everything that was built before a base is
/// installed when its turn comes.
pub proof fn law_installed_before_next(s: BuildView)
    requires
        s.wf(),
        !s.config.batch_install,
        s.in_base(),
        s.stage != Stage::Record,
    ensures
        s.queue.len() == 0 && s.deps.len() == 0 && s.exp.len() == 0,
{
}

/// Where every package is listed, each package of a base that is not left out has its
/// listed file in the queue, and is marked where it was not installed before.
pub proof fn law_intake_is_complete(
    s: BuildView,
    versions: Seq<Option<Seq<char>>>,
    n: nat,
    i: int,
)
    requires
        0 <= i < n <= s.base().pkgs.len(),
        versions.len() == s.base().pkgs.len(),
        s.intake(versions, n).missing is None,
        !s.left_out(versions[i]),
    ensures
        ({
            let all = s.intake(versions, n);
            let pkg = s.base().pkgs[i];
            let name = pkg.pkg.name;
            &&& s.list.paths.contains_key(name)
            &&& all.queue.contains(s.list.paths[name])
            &&& versions[i] is None && pkg.target ==> all.exp.contains(name)
            &&& versions[i] is None && !pkg.target ==> all.deps.contains(name)
        }),
    decreases n,
{
    let m = (n - 1) as nat;
    let before = s.intake(versions, m);
    let all = s.intake(versions, n);
    let name = s.base().pkgs[i].pkg.name;
    lemma_intake_paths(s, versions, m);
    if i < m {
        law_intake_is_complete(s, versions, m, i);
        let path = s.list.paths[name];
        let k = choose|k: int| 0 <= k < before.queue.len() && before.queue[k] == path;
        assert(all.queue[k] == path);
        if before.exp.contains(name) {
            let k = choose|k: int| 0 <= k < before.exp.len() && before.exp[k] == name;
            assert(all.exp[k] == name);
        }
        if before.deps.contains(name) {
            let k = choose|k: int| 0 <= k < before.deps.len() && before.deps[k] == name;
            assert(all.deps[k] == name);
        }
    } else {
        assert(before.paths.contains_key(name));
        assert(all.queue[before.queue.len() as int] == before.paths[name]);
        if versions[i] is None && s.base().pkgs[i].target {
            assert(all.exp[before.exp.len() as int] == name);
        }
        if versions[i] is None && !s.base().pkgs[i].target {
            assert(all.deps[before.deps.len() as int] == name);
        }
    }
}

proof fn lemma_intake_paths(s: BuildView, versions: Seq<Option<Seq<char>>>, n: nat)
    ensures
        forall|name: Seq<char>| #[trigger]
            s.intake(versions, n).paths.contains_key(name) ==> s.list.paths.contains_key(name)
                && s.list.paths[name] == s.intake(versions, n).paths[name],
    decreases n,
{
    if n > 0 {
        lemma_intake_paths(s, versions, (n - 1) as nat);
    }
}

// ---- what the run is for ----

/// A base is built exactly where one of its files is missing or the settings ask for it:
/// for every base, or for those with a package that was asked for. Before its list is
/// fresh that leads to fetching the sources; once it is fresh, to building, even where
/// every file is there already. Otherwise nothing is fetched or built.
pub proof fn law_built_as_asked(s: BuildView, there: Seq<bool>)
    requires
        s.wf(),
        s.stage == Stage::Probe,
    ensures
        ({
            let next = s.probed(there);
            let base = s.build[s.at as int];
            let missing = exists|i: int| 0 <= i < there.len() && !(#[trigger] there[i]);
            let target = exists|i: int| 0 <= i < base.pkgs.len() && (#[trigger] base.pkgs[i]).target;
            let wanted = missing || s.config.rebuild == "all"@ || (s.config.rebuild == "yes"@
                && target);
            &&& wanted && s.fresh ==> next.stage == Stage::Make
            &&& wanted && !s.fresh ==> next.stage == Stage::Sources
            &&& !wanted ==> next.stage == Stage::Installed
            &&& next.needs_build <==> missing
            &&& (BuildView { needs_build: s.needs_build, stage: s.stage, ..next }) == s
        }),
{
    let base = s.build[s.at as int];
    if there.contains(false) {
        let i = choose|i: int| 0 <= i < there.len() && there[i] == false;
        assert(!there[i]);
    }
    if exists|i: int| 0 <= i < there.len() && !(#[trigger] there[i]) {
        let i = choose|i: int| 0 <= i < there.len() && !(#[trigger] there[i]);
        assert(there[i] == false);
    }
    if exists|i: int| 0 <= i < base.pkgs.len() && (#[trigger] base.pkgs[i]).target {
        let i = choose|i: int| 0 <= i < base.pkgs.len() && (#[trigger] base.pkgs[i]).target;
        assert(s.base().pkgs[i].target);
    }
}

/// Building goes in order: the sources are fetched, the base is prepared, its packages are
/// listed afresh, and only then is it built; after that its files go into the queue.
/// Listing keeps what is known otherwise.
pub proof fn law_build_order(s: BuildView, list: PackageListView)
    requires
        s.wf(),
    ensures
        s.stage == Stage::Sources ==> s.done() == (BuildView { stage: Stage::Bump, ..s }),
        s.stage == Stage::Bump ==> s.done() == (BuildView { stage: Stage::List, fresh: true, ..s }),
        s.stage == Stage::List ==> s.listed(list) == (BuildView { stage: Stage::Probe, list, ..s }),
        s.stage == Stage::Make ==> s.done() == (BuildView { stage: Stage::Installed, ..s }),
{
}

/// Whether a base with nothing listed yet has its turn: what a development package makes
/// is listed only after it was prepared, of any other base it is listed first.
pub open spec fn begun(s: BuildView) -> bool {
    let base = s.build[s.at as int];
    &&& !s.fresh
    &&& s.list.paths.dom() == Set::<Seq<char>>::empty()
    &&& s.list.version.len() == 0
    &&& s.stage == Stage::Sources <==> exists|i: int|
        0 <= i < base.pkgs.len() && devel_name((#[trigger] base.pkgs[i]).pkg.name)
    &&& s.stage != Stage::Sources ==> s.stage == Stage::List
}

proof fn lemma_begun(s: BuildView)
    ensures
        begun(s.begin_base()),
        s.begin_base().needs_build,
{
    let base = s.build[s.at as int];
    assert(s.begin_base().list.paths.dom() =~= Set::<Seq<char>>::empty());
    if exists|i: int| 0 <= i < base.pkgs.len() && devel_name((#[trigger] base.pkgs[i]).pkg.name) {
        let i = choose|i: int|
            0 <= i < base.pkgs.len() && devel_name((#[trigger] base.pkgs[i]).pkg.name);
        assert(devel_name(s.base().pkgs[i].pkg.name));
    }
}

/// A name is that of a development package exactly where it ends in one of the endings
/// for those: whatever stands before the ending.
pub proof fn law_devel_name(stem: Seq<char>, name: Seq<char>)
    ensures
        devel_name(stem + "-git"@),
        devel_name(stem + "-cvs"@),
        devel_name(stem + "-svn"@),
        devel_name(stem + "-bzr"@),
        devel_name(stem + "-darcs"@),
        devel_name(name) ==> name.len() >= 4 && {
            let short = name.skip(name.len() - 4);
            ||| short == "-git"@
            ||| short == "-cvs"@
            ||| short == "-svn"@
            ||| short == "-bzr"@
            ||| name.len() >= 6 && name.skip(name.len() - 6) == "-darcs"@
        },
{
    reveal_strlit("-git");
    reveal_strlit("-cvs");
    reveal_strlit("-svn");
    reveal_strlit("-bzr");
    reveal_strlit("-darcs");
    assert((stem + "-git"@).skip(stem.len() as int) =~= "-git"@);
    assert((stem + "-cvs"@).skip(stem.len() as int) =~= "-cvs"@);
    assert((stem + "-svn"@).skip(stem.len() as int) =~= "-svn"@);
    assert((stem + "-bzr"@).skip(stem.len() as int) =~= "-bzr"@);
    assert((stem + "-darcs"@).skip(stem.len() as int) =~= "-darcs"@);
}

/// When a base's turn is over the next one comes up, and when all have had theirs, the
/// end. Unless packages are installed in batches, what waits in the queue is installed
/// first; with batches it is looked first whether the next base needs it. At the end all
/// that waits is installed. Nothing in the queue changes by that.
pub proof fn law_next_base(s: BuildView)
    requires
        s.wf(),
        s.stage == Stage::Record || s.stage == Stage::Devel,
    ensures
        ({
            let next = s.done();
            let at = if s.stage == Stage::Record {
                s.at + 1
            } else {
                0
            };
            let last = at == s.build.len();
            &&& next.at == at
            &&& next.queue == s.queue && next.deps == s.deps && next.exp == s.exp
            &&& next.stage == Stage::Dependencies <==> !last && s.config.batch_install
            &&& next.stage == Stage::Install <==> (last || !s.config.batch_install)
                && s.queue.len() > 0
            &&& next.stage == Stage::Done <==> last && s.queue.len() == 0
            &&& !last && !s.config.batch_install && s.queue.len() == 0 ==> begun(next)
            &&& s.queue.len() > 0 ==> next.conflict == s.conflict
            &&& next.config == s.config && next.build == s.build && next.conflicts == s.conflicts
        }),
{
    lemma_begun(BuildView { at: s.at + 1, conflict: false, ..s });
    lemma_begun(BuildView { conflict: false, ..s });
}

/// With batches, a base whose last package has every dependency installed is built at
/// once, and the queue waits as it is. Any other base waits until the queue is installed;
/// with an empty queue it need not.
pub proof fn law_batch_waits(s: BuildView, found: Seq<Seq<bool>>)
    requires
        s.wf(),
        s.stage == Stage::Dependencies,
        found.len() == s.build[s.at as int].pkgs.len(),
    ensures
        ({
            let next = s.dependencies(found);
            let last = found[found.len() - 1];
            let satisfied = forall|i: int| 0 <= i < last.len() ==> #[trigger] last[i];
            &&& next.at == s.at
            &&& next.queue == s.queue && next.deps == s.deps && next.exp == s.exp
            &&& next.stage == Stage::Install <==> !satisfied && s.queue.len() > 0
            &&& next.stage != Stage::Install ==> begun(next)
            &&& satisfied || s.queue.len() > 0 ==> next.conflict == s.conflict
        }),
{
    let last = found[found.len() - 1];
    assert(s.build[s.at as int].wf());
    lemma_begun(s);
    lemma_begun(BuildView { conflict: false, ..s });
    if last.contains(false) {
        let i = choose|i: int| 0 <= i < last.len() && last[i] == false;
        assert(!last[i]);
    }
    if !last.contains(false) {
        assert forall|i: int| 0 <= i < last.len() implies #[trigger] last[i] by {
            if !last[i] {
                assert(last[i] == false);
            }
        }
    }
}

/// Once the queue is installed, what is known about development packages is saved where
/// that is wanted; then the new packages are marked, first those that others need, then
/// those that were asked for, where there are any. Then the queue is empty, and the base
/// that waited has its turn, or the end has come.
pub proof fn law_after_installing(s: BuildView)
    requires
        s.wf(),
        s.installing(),
    ensures
        ({
            let next = s.done();
            let installed = s.stage == Stage::Install && !s.config.devel || s.stage
                == Stage::SaveDevel;
            let all_marked = installed && s.deps.len() == 0 && s.exp.len() == 0 || s.stage
                == Stage::AsDeps && s.exp.len() == 0 || s.stage == Stage::AsExplicit;
            &&& s.stage == Stage::Install && s.config.devel <==> next.stage == Stage::SaveDevel
            &&& installed && s.deps.len() > 0 <==> next.stage == Stage::AsDeps
            &&& (installed && s.deps.len() == 0 || s.stage == Stage::AsDeps) && s.exp.len() > 0
                <==> next.stage == Stage::AsExplicit
            &&& !all_marked ==> next.queue == s.queue && next.deps == s.deps && next.exp == s.exp
                && next.conflict == s.conflict
            &&& all_marked ==> {
                &&& next.queue.len() == 0 && next.deps.len() == 0 && next.exp.len() == 0
                &&& !next.conflict
                &&& next.stage == Stage::Done <==> s.at == s.build.len()
                &&& s.at < s.build.len() ==> begun(next)
            }
            &&& next.at == s.at && next.config == s.config && next.build == s.build
        }),
{
    lemma_begun(
        BuildView {
            deps: Seq::empty(),
            exp: Seq::empty(),
            queue: Seq::empty(),
            conflict: false,
            ..s
        },
    );
}

/// Whether the `i`th package of the base stays out: only what is needed is wanted, and the
/// package is installed in the listed version.
pub open spec fn stays_out(s: BuildView, versions: Seq<Option<Seq<char>>>, i: int) -> bool {
    s.config.args.has_arg("needed"@, "needed"@) && versions[i] == Some(s.list.version)
}

/// Whether the `i`th package of the base has no file of its own: none is listed, or another
/// package of the name has it.
pub open spec fn unlisted(s: BuildView, versions: Seq<Option<Seq<char>>>, i: int) -> bool {
    let pkgs = s.build[s.at as int].pkgs;
    ||| !s.list.paths.contains_key(pkgs[i].pkg.name)
    ||| exists|j: int|
        0 <= j < i && !stays_out(s, versions, j) && (#[trigger] pkgs[j]).pkg.name
            == pkgs[i].pkg.name
}

/// Whether the `i`th package is the first that is to be installed and has no file.
pub open spec fn first_unlisted(s: BuildView, versions: Seq<Option<Seq<char>>>, i: int) -> bool {
    &&& !stays_out(s, versions, i)
    &&& unlisted(s, versions, i)
    &&& forall|j: int| 0 <= j < i ==> stays_out(s, versions, j) || !#[trigger] unlisted(s, versions, j)
}

/// What is left in the list: the files of the names that are not in the queue yet.
proof fn lemma_left_in_list(s: BuildView, versions: Seq<Option<Seq<char>>>, n: nat)
    requires
        n <= s.build[s.at as int].pkgs.len(),
    ensures
        ({
            let all = s.intake(versions, n);
            let pkgs = s.build[s.at as int].pkgs;
            all.missing is None ==> forall|name: Seq<char>| #[trigger]
                all.paths.contains_key(name) <==> s.list.paths.contains_key(name) && !exists|j: int|
                    0 <= j < n && !stays_out(s, versions, j) && (#[trigger] pkgs[j]).pkg.name
                        == name
        }),
    decreases n,
{
    if n > 0 {
        let m = (n - 1) as nat;
        let pkgs = s.build[s.at as int].pkgs;
        let before = s.intake(versions, m);
        let all = s.intake(versions, n);
        lemma_left_in_list(s, versions, m);
        if all.missing is None {
            assert forall|name: Seq<char>| #[trigger]
                all.paths.contains_key(name) <==> s.list.paths.contains_key(name) && !exists|j: int|
                    0 <= j < n && !stays_out(s, versions, j) && (#[trigger] pkgs[j]).pkg.name
                        == name by {
                assert(before.paths.contains_key(name) <==> s.list.paths.contains_key(name)
                    && !exists|j: int|
                    0 <= j < m && !stays_out(s, versions, j) && (#[trigger] pkgs[j]).pkg.name
                        == name);
                if exists|j: int|
                    0 <= j < n && !stays_out(s, versions, j) && (#[trigger] pkgs[j]).pkg.name
                        == name {
                    let j = choose|j: int|
                        0 <= j < n && !stays_out(s, versions, j) && (#[trigger] pkgs[j]).pkg.name
                            == name;
                    if j < m {
                        assert(pkgs[j].pkg.name == name);
                    }
                }
                if !stays_out(s, versions, m as int) {
                    assert(pkgs[m as int].pkg.name == s.base().pkgs[n - 1].pkg.name);
                }
            }
        }
    }
}

/// A base fails exactly where one of its packages is to be installed and has no file in
/// the list; the first such package is told. Nothing of the base is installed then, and
/// what waited stays in the queue.
pub proof fn law_unlisted_fails(s: BuildView, versions: Seq<Option<Seq<char>>>)
    requires
        s.wf(),
        s.stage == Stage::Installed,
        versions.len() == s.build[s.at as int].pkgs.len(),
    ensures
        ({
            let next = s.installed(versions);
            let pkgs = s.build[s.at as int].pkgs;
            &&& next.stage == Stage::Failed <==> exists|i: int|
                0 <= i < pkgs.len() && !stays_out(s, versions, i) && #[trigger] unlisted(
                    s,
                    versions,
                    i,
                )
            &&& next.stage != Stage::Failed ==> next.stage == Stage::Record
            &&& s.intake(versions, pkgs.len()).missing matches Some(name) ==> exists|i: int|
                0 <= i < pkgs.len() && #[trigger] first_unlisted(s, versions, i)
                    && pkgs[i].pkg.name == name
            &&& next.stage == Stage::Failed ==> next.queue == s.queue && next.deps == s.deps
                && next.exp == s.exp
            &&& next.at == s.at && next.build == s.build && next.config == s.config
            &&& next.needs_build == s.needs_build && next.list.version == s.list.version
        }),
{
    lemma_missing(s, versions, s.build[s.at as int].pkgs.len());
}

proof fn lemma_missing(s: BuildView, versions: Seq<Option<Seq<char>>>, n: nat)
    requires
        n <= s.build[s.at as int].pkgs.len(),
        versions.len() == s.build[s.at as int].pkgs.len(),
    ensures
        s.intake(versions, n).missing is Some <==> exists|i: int|
            0 <= i < n && !stays_out(s, versions, i) && #[trigger] unlisted(s, versions, i),
        s.intake(versions, n).missing matches Some(name) ==> exists|i: int|
            0 <= i < n && #[trigger] first_unlisted(s, versions, i)
                && s.build[s.at as int].pkgs[i].pkg.name == name,
    decreases n,
{
    if n > 0 {
        let m = (n - 1) as nat;
        let pkgs = s.build[s.at as int].pkgs;
        lemma_missing(s, versions, m);
        if s.intake(versions, m).missing is None && s.intake(versions, n).missing is Some {
            lemma_left_in_list(s, versions, m);
            assert(unlisted(s, versions, m as int));
            assert(first_unlisted(s, versions, m as int));
        }
        lemma_left_in_list(s, versions, m);
        let before = s.intake(versions, m);
        let name = pkgs[m as int].pkg.name;
        if before.missing is Some {
            let i = choose|i: int|
                0 <= i < m && !stays_out(s, versions, i) && #[trigger] unlisted(s, versions, i);
            assert(unlisted(s, versions, i));
        } else {
            assert(before.paths.contains_key(name) <==> !unlisted(s, versions, m as int));
            if exists|i: int|
                0 <= i < n && !stays_out(s, versions, i) && #[trigger] unlisted(s, versions, i) {
                let i = choose|i: int|
                    0 <= i < n && !stays_out(s, versions, i) && #[trigger] unlisted(s, versions, i);
                if i < m {
                    assert(unlisted(s, versions, i));
                }
            }
            if !stays_out(s, versions, m as int) && !before.paths.contains_key(name) {
                assert(unlisted(s, versions, m as int));
            }
        }
    }
}

/// Exactly the files of the packages that do not stay out come into the queue, behind what
/// waits there. Exactly the packages among them that were not installed at all are marked,
/// for their own sake where they were asked for and for others' sake where they were not.
pub proof fn law_queued_and_marked(s: BuildView, versions: Seq<Option<Seq<char>>>, item: Seq<char>)
    requires
        s.wf(),
        s.stage == Stage::Installed,
        versions.len() == s.build[s.at as int].pkgs.len(),
        s.installed(versions).stage == Stage::Record,
    ensures
        ({
            let next = s.installed(versions);
            let pkgs = s.build[s.at as int].pkgs;
            &&& next.queue.take(s.queue.len() as int) == s.queue
            &&& next.exp.take(s.exp.len() as int) == s.exp
            &&& next.deps.take(s.deps.len() as int) == s.deps
            &&& next.queue.contains(item) <==> s.queue.contains(item) || exists|i: int|
                0 <= i < pkgs.len() && !stays_out(s, versions, i)
                    && s.list.paths[(#[trigger] pkgs[i]).pkg.name] == item
            &&& next.exp.contains(item) <==> s.exp.contains(item) || exists|i: int|
                0 <= i < pkgs.len() && !stays_out(s, versions, i) && versions[i] is None && (
                #[trigger] pkgs[i]).target && pkgs[i].pkg.name == item
            &&& next.deps.contains(item) <==> s.deps.contains(item) || exists|i: int|
                0 <= i < pkgs.len() && !stays_out(s, versions, i) && versions[i] is None && !(
                #[trigger] pkgs[i]).target && pkgs[i].pkg.name == item
        }),
{
    let n = s.build[s.at as int].pkgs.len();
    law_intake_appends(s, versions, n);
    let all = s.intake(versions, n);
    assert(all.queue.take(s.queue.len() as int) =~= s.queue);
    assert(all.exp.take(s.exp.len() as int) =~= s.exp);
    assert(all.deps.take(s.deps.len() as int) =~= s.deps);
    lemma_queued(s, versions, n, item);
    lemma_marked_exp(s, versions, n, item);
    lemma_marked_deps(s, versions, n, item);
}

proof fn lemma_pushed<T>(items: Seq<T>, last: T, item: T)
    ensures
        items.push(last).contains(item) <==> items.contains(item) || last == item,
{
    let more = items.push(last);
    assert(more[items.len() as int] == last);
    if items.contains(item) {
        let k = choose|k: int| 0 <= k < items.len() && items[k] == item;
        assert(more[k] == item);
    }
    if more.contains(item) && last != item {
        let k = choose|k: int| 0 <= k < more.len() && more[k] == item;
        assert(items[k] == item);
    }
}

proof fn lemma_queued(s: BuildView, versions: Seq<Option<Seq<char>>>, n: nat, item: Seq<char>)
    requires
        n <= s.build[s.at as int].pkgs.len(),
        s.intake(versions, n).missing is None,
    ensures
        ({
            let pkgs = s.build[s.at as int].pkgs;
            s.intake(versions, n).queue.contains(item) <==> s.queue.contains(item) || exists|i: int|
                0 <= i < n && !stays_out(s, versions, i)
                    && s.list.paths[(#[trigger] pkgs[i]).pkg.name] == item
        }),
    decreases n,
{
    if n > 0 {
        let m = (n - 1) as nat;
        let pkgs = s.build[s.at as int].pkgs;
        let before = s.intake(versions, m);
        let pkg = pkgs[m as int];
        lemma_queued(s, versions, m, item);
        lemma_intake_paths(s, versions, m);
        if !stays_out(s, versions, m as int) {
            assert(before.paths.contains_key(pkg.pkg.name));
            lemma_pushed(before.queue, before.paths[pkg.pkg.name], item);
        }
        if exists|i: int|
            0 <= i < n && !stays_out(s, versions, i) && s.list.paths[(#[trigger] pkgs[i]).pkg.name]
                == item {
            let i = choose|i: int|
                0 <= i < n && !stays_out(s, versions, i) && s.list.paths[(
                #[trigger] pkgs[i]).pkg.name] == item;
            if i < m {
                assert(s.list.paths[pkgs[i].pkg.name] == item);
            }
        }
    }
}

proof fn lemma_marked_exp(s: BuildView, versions: Seq<Option<Seq<char>>>, n: nat, item: Seq<char>)
    requires
        n <= s.build[s.at as int].pkgs.len(),
        s.intake(versions, n).missing is None,
    ensures
        ({
            let pkgs = s.build[s.at as int].pkgs;
            s.intake(versions, n).exp.contains(item) <==> s.exp.contains(item) || exists|i: int|
                0 <= i < n && !stays_out(s, versions, i) && versions[i] is None && (
                #[trigger] pkgs[i]).target && pkgs[i].pkg.name == item
        }),
    decreases n,
{
    if n > 0 {
        let m = (n - 1) as nat;
        let pkgs = s.build[s.at as int].pkgs;
        let before = s.intake(versions, m);
        lemma_marked_exp(s, versions, m, item);
        lemma_pushed(before.exp, pkgs[m as int].pkg.name, item);
        if exists|i: int|
            0 <= i < n && !stays_out(s, versions, i) && versions[i] is None && (
            #[trigger] pkgs[i]).target && pkgs[i].pkg.name == item {
            let i = choose|i: int|
                0 <= i < n && !stays_out(s, versions, i) && versions[i] is None && (
                #[trigger] pkgs[i]).target && pkgs[i].pkg.name == item;
            if i < m {
                assert(pkgs[i].target);
            }
        }
    }
}

proof fn lemma_marked_deps(s: BuildView, versions: Seq<Option<Seq<char>>>, n: nat, item: Seq<char>)
    requires
        n <= s.build[s.at as int].pkgs.len(),
        s.intake(versions, n).missing is None,
    ensures
        ({
            let pkgs = s.build[s.at as int].pkgs;
            s.intake(versions, n).deps.contains(item) <==> s.deps.contains(item) || exists|i: int|
                0 <= i < n && !stays_out(s, versions, i) && versions[i] is None && !(
                #[trigger] pkgs[i]).target && pkgs[i].pkg.name == item
        }),
    decreases n,
{
    if n > 0 {
        let m = (n - 1) as nat;
        let pkgs = s.build[s.at as int].pkgs;
        let before = s.intake(versions, m);
        lemma_marked_deps(s, versions, m, item);
        lemma_pushed(before.deps, pkgs[m as int].pkg.name, item);
        if exists|i: int|
            0 <= i < n && !stays_out(s, versions, i) && versions[i] is None && !(
            #[trigger] pkgs[i]).target && pkgs[i].pkg.name == item {
            let i = choose|i: int|
                0 <= i < n && !stays_out(s, versions, i) && versions[i] is None && !(
                #[trigger] pkgs[i]).target && pkgs[i].pkg.name == item;
            if i < m {
                assert(!pkgs[i].target);
            }
        }
    }
}

/// The queue counts as being in a conflict exactly where it did before, or where a base
/// with a package in a conflict has put a file into it.
pub proof fn law_conflict_exactly(s: BuildView, versions: Seq<Option<Seq<char>>>)
    requires
        s.wf(),
        s.stage == Stage::Installed,
        versions.len() == s.build[s.at as int].pkgs.len(),
        s.installed(versions).stage == Stage::Record,
    ensures
        ({
            let pkgs = s.build[s.at as int].pkgs;
            let named = exists|i: int|
                0 <= i < pkgs.len() && s.conflicts.contains((#[trigger] pkgs[i]).pkg.name);
            let queued = exists|i: int|
                0 <= i < pkgs.len() && !#[trigger] stays_out(s, versions, i);
            s.installed(versions).conflict <==> s.conflict || named && queued
        }),
{
    let pkgs = s.build[s.at as int].pkgs;
    if exists|i: int| 0 <= i < pkgs.len() && s.conflicts.contains((#[trigger] pkgs[i]).pkg.name) {
        let i = choose|i: int|
            0 <= i < pkgs.len() && s.conflicts.contains((#[trigger] pkgs[i]).pkg.name);
        assert(s.conflicts.contains(s.base().pkgs[i].pkg.name));
    }
    lemma_conflict(s, versions, pkgs.len());
}

proof fn lemma_conflict(s: BuildView, versions: Seq<Option<Seq<char>>>, n: nat)
    requires
        n <= s.build[s.at as int].pkgs.len(),
        s.intake(versions, n).missing is None,
    ensures
        s.intake(versions, n).conflict <==> s.conflict || s.base().has_name_in(s.conflicts)
            && exists|i: int| 0 <= i < n && !#[trigger] stays_out(s, versions, i),
    decreases n,
{
    if n > 0 {
        let m = (n - 1) as nat;
        lemma_conflict(s, versions, m);
        if exists|i: int| 0 <= i < n && !#[trigger] stays_out(s, versions, i) {
            let i = choose|i: int| 0 <= i < n && !#[trigger] stays_out(s, versions, i);
            if i < m {
                assert(!stays_out(s, versions, i));
            }
        }
        if exists|i: int| 0 <= i < m && !#[trigger] stays_out(s, versions, i) {
            let i = choose|i: int| 0 <= i < m && !#[trigger] stays_out(s, versions, i);
            assert(!stays_out(s, versions, i));
        }
        if !stays_out(s, versions, m as int) {
            assert(!stays_out(s, versions, m as int));
        }
    }
}

/// The order of the queue is the order of the base's packages: a package's file stands
/// before those of all later packages.
pub proof fn law_queue_in_order(s: BuildView, versions: Seq<Option<Seq<char>>>, n: nat, i: int)
    requires
        0 <= i < n <= s.build[s.at as int].pkgs.len(),
        s.intake(versions, n).missing is None,
        !stays_out(s, versions, i),
    ensures
        ({
            let at = s.intake(versions, i as nat).queue.len();
            &&& at < s.intake(versions, (i + 1) as nat).queue.len()
            &&& s.intake(versions, (i + 1) as nat).queue.len() <= s.intake(versions, n).queue.len()
            &&& s.intake(versions, n).queue[at as int] == s.list.paths[s.build[s.at as int].pkgs[i].pkg.name]
        }),
    decreases n,
{
    let m = (n - 1) as nat;
    let before = s.intake(versions, m);
    lemma_intake_paths(s, versions, m);
    if i < m {
        law_queue_in_order(s, versions, m, i);
    }
}

/// That a base is up to date and is not built is told exactly where all of its files are
/// there; that it is not installed, once for every package that stays out.
pub proof fn law_told_up_to_date(s: BuildView, versions: Seq<Option<Seq<char>>>, n: nat)
    requires
        n <= s.build[s.at as int].pkgs.len(),
    ensures
        s.stage == Stage::Installed ==> (s.notice() is Some <==> !s.needs_build),
        s.intake(versions, n).missing is None ==> s.intake(versions, n).skipped == Seq::new(
            n,
            |i: int| stays_out(s, versions, i),
        ).filter(|out: bool| out).len(),
    decreases n,
{
    reveal(Seq::filter);
    let kept = |out: bool| out;
    let outs = Seq::new(n, |i: int| stays_out(s, versions, i));
    if n > 0 {
        let m = (n - 1) as nat;
        law_told_up_to_date(s, versions, m);
        let fewer = Seq::new(m, |i: int| stays_out(s, versions, i));
        assert(outs =~= fewer.push(stays_out(s, versions, m as int)));
        text::lemma_filter_push(fewer, stays_out(s, versions, m as int), kept);
    }
}

/// What is told where a command fails names the base; only makepkg's own steps can fail so.
pub proof fn law_failure(s: BuildView)
    ensures
        s.failure() is Some <==> s.stage == Stage::Sources || s.stage == Stage::Bump || s.stage
            == Stage::Make,
        s.stage == Stage::Sources ==> s.failure() == Some(
            ErrorView::Download(s.build[s.at as int].text()),
        ),
        s.stage == Stage::Bump || s.stage == Stage::Make ==> s.failure() == Some(
            ErrorView::Build(s.build[s.at as int].text()),
        ),
        s.makepkg().len() > 0 <==> s.stage == Stage::List || s.failure() is Some,
{
}

/// A run begins with the first base and with nothing waiting: with what is known about
/// development packages where that is wanted, and otherwise as the first base asks for.
/// Without bases there is nothing to do.
pub proof fn law_begins(
    config: ConfigView,
    build: Seq<BuildBaseView>,
    conflicts: Seq<Seq<char>>,
)
    ensures
        ({
            let s = start(config, build, conflicts);
            &&& s.config == config && s.build == build && s.conflicts == conflicts
            &&& s.at == 0 && s.queue.len() == 0 && s.deps.len() == 0 && s.exp.len() == 0
            &&& !s.conflict
            &&& s.stage == Stage::Devel <==> config.devel
            &&& !config.devel && build.len() == 0 ==> s.stage == Stage::Done
            &&& !config.devel && build.len() > 0 && config.batch_install ==> s.stage
                == Stage::Dependencies
            &&& !config.devel && build.len() > 0 && !config.batch_install ==> begun(s)
        }),
{
    let s = start(ConfigView { devel: true, ..config }, build, conflicts);
    lemma_begun(BuildView { config, ..s });
}

/// Exactly the queued files are installed, and nobody is asked unless one of them is in a
/// conflict.
pub proof fn law_install_call(s: BuildView)
    ensures
        s.install_call().op == "upgrade"@,
        s.install_call().targets == s.queue,
        !s.conflict ==> s.install_call().args.last().key == "noconfirm"@,
        s.conflict && !s.config.use_ask ==> s.install_call().args.len()
            == s.config.globals.args.len() + s.config.globals.count("d"@, "nodeps"@),
{
    pacman::law_upgrade_call(s.config, s.queue, s.conflict);
}

/// What others need is marked as such, and what was asked for as that: each stage marks
/// its own packages, with its own reason.
pub proof fn law_mark_call(s: BuildView)
    requires
        s.stage == Stage::AsDeps || s.stage == Stage::AsExplicit,
    ensures
        ({
            let call = s.mark_call();
            let n = s.config.globals.targets.len() as int;
            &&& call.op == "database"@
            &&& call.args.drop_last() == s.config.globals.args
            &&& s.stage == Stage::AsDeps ==> call.args.last().key == "asdeps"@ && call.targets.skip(
                n,
            ) == s.deps
            &&& s.stage == Stage::AsExplicit ==> call.args.last().key == "asexplicit"@
                && call.targets.skip(n) == s.exp
        }),
{
    pacman::law_reason_call(s.config, "asdeps"@, s.deps);
    pacman::law_reason_call(s.config, "asexplicit"@, s.exp);
}

/// The files can be looked at where each is listed, or where one that is not there stands
/// before the first that is not listed; they cannot where all before that are there.
pub proof fn law_can_probe(base: BuildBaseView, list: PackageListView, there: Seq<bool>, i: int)
    requires
        0 <= i < base.pkgs.len(),
    ensures
        (forall|j: int|
            0 <= j < base.pkgs.len() ==> list.paths.contains_key(
                (#[trigger] base.pkgs[j]).pkg.name,
            )) ==> probe_able(base, list, there),
        !there[i] && (forall|j: int|
            0 <= j <= i ==> list.paths.contains_key((#[trigger] base.pkgs[j]).pkg.name))
            ==> probe_able(base, list, there),
        !list.paths.contains_key(base.pkgs[i].pkg.name) && (forall|j: int|
            0 <= j < i ==> #[trigger] there[j]) ==> !probe_able(base, list, there),
{
}

/// The file that is looked for is the one that the list has under the package's name.
pub proof fn law_file(s: BuildView, i: int)
    ensures
        ({
            let name = s.build[s.at as int].pkgs[i].pkg.name;
            &&& s.file(i) is Some <==> s.list.paths.contains_key(name)
            &&& s.file(i) matches Some(file) ==> s.list.paths.contains_pair(name, file)
        }),
{
}

/// What is told at a stage names the base that it is about: before its packages are listed,
/// and where it is not built because it is up to date.
pub proof fn law_notices(s: BuildView)
    ensures
        s.stage == Stage::Devel ==> s.notice() is Some,
        s.stage == Stage::List ==> s.notice() is Some && s.build[s.at as int].text().is_prefix_of(
            s.notice()->0,
        ),
        s.stage == Stage::Installed && !s.needs_build ==> s.notice() is Some && ({
            let first = s.build[s.at as int].pkgs[0].pkg;
            (first.package_base + "-"@ + first.version).is_prefix_of(s.notice()->0)
        }),
        s.stage != Stage::Devel && s.stage != Stage::List && s.stage != Stage::Installed
            ==> s.notice() is None,
{
    let base = s.build[s.at as int];
    let first = base.pkgs[0].pkg;
    if s.stage == Stage::List {
        assert(s.notice()->0.take(base.text().len() as int) =~= base.text());
    }
    if s.stage == Stage::Installed && !s.needs_build {
        let name = first.package_base + "-"@ + first.version;
        assert(s.notice()->0.take(name.len() as int) =~= name);
    }
}

/// Whether one state follows on another by some report.
pub open spec fn follows(a: BuildView, b: BuildView) -> bool {
    ||| a.plain() && b == a.done()
    ||| a.stage == Stage::Dependencies && exists|found: Seq<Seq<bool>>| b == a.dependencies(found)
    ||| a.stage == Stage::List && exists|list: PackageListView| b == a.listed(list)
    ||| a.stage == Stage::Probe && exists|there: Seq<bool>| b == a.probed(there)
    ||| a.stage == Stage::Installed && exists|versions: Seq<Option<Seq<char>>>| b == a.installed(
        versions,
    )
}

/// Whether the `i`th state of a run is followed by the next.
pub open spec fn step_at(run: Seq<BuildView>, i: int) -> bool {
    follows(run[i], run[i + 1])
}

/// Whether the states are a run over some bases from the beginning on.
pub open spec fn is_run(
    run: Seq<BuildView>,
    config: ConfigView,
    build: Seq<BuildBaseView>,
    conflicts: Seq<Seq<char>>,
) -> bool {
    &&& run.len() > 0
    &&& run[0] == start(config, build, conflicts)
    &&& forall|i: int| 0 <= i < build.len() ==> (#[trigger] build[i]).pkgs.len() > 0
    &&& forall|i: int| 0 <= i < run.len() - 1 ==> #[trigger] step_at(run, i)
}

/// Whether a run came by a stage for the `k`th base up to its `n`th state.
pub open spec fn came_by(run: Seq<BuildView>, n: int, stage: Stage, k: nat) -> bool {
    exists|i: int| 0 <= i <= n && (#[trigger] run[i]).stage == stage && run[i].at == k
}

/// Whether the settings ask for rebuilding a base: every base, or one with a package that
/// was asked for.
pub open spec fn rebuilt(config: ConfigView, base: BuildBaseView) -> bool {
    ||| config.rebuild == "all"@
    ||| config.rebuild == "yes"@ && exists|i: int|
        0 <= i < base.pkgs.len() && (#[trigger] base.pkgs[i]).target
}

/// Every run that comes to its end has put the packages of every base into the queue and
/// installed all of it. Every base that the settings ask to rebuild was built, whatever
/// files were there, and before that its sources were fetched and it was prepared.
pub proof fn law_run_to_end(
    run: Seq<BuildView>,
    config: ConfigView,
    build: Seq<BuildBaseView>,
    conflicts: Seq<Seq<char>>,
    k: nat,
)
    requires
        is_run(run, config, build, conflicts),
        run.last().stage == Stage::Done,
        k < build.len(),
    ensures
        came_by(run, run.len() - 1, Stage::Installed, k),
        came_by(run, run.len() - 1, Stage::Record, k),
        rebuilt(config, build[k as int]) ==> {
            &&& came_by(run, run.len() - 1, Stage::Sources, k)
            &&& came_by(run, run.len() - 1, Stage::Bump, k)
            &&& came_by(run, run.len() - 1, Stage::Make, k)
        },
        run.last().queue.len() == 0 && run.last().deps.len() == 0 && run.last().exp.len() == 0,
{
    lemma_run(run, config, build, conflicts, run.len() - 1, k);
}

/// What lies behind a run, as far as the `k`th base is concerned.
spec fn behind(run: Seq<BuildView>, n: int, k: nat) -> bool {
    let s = run[n];
    let built = came_by(run, n, Stage::Make, k) && came_by(run, n, Stage::Bump, k) && came_by(
        run,
        n,
        Stage::Sources,
        k,
    );
    &&& s.wf()
    &&& s.config == run[0].config
    &&& s.build == run[0].build
    &&& k < s.at ==> {
        &&& came_by(run, n, Stage::Installed, k)
        &&& came_by(run, n, Stage::Record, k)
        &&& rebuilt(s.config, s.build[k as int]) ==> built
    }
    &&& k == s.at ==> {
        &&& s.stage == Stage::Sources ==> came_by(run, n, Stage::Sources, k)
        &&& s.stage == Stage::Bump ==> came_by(run, n, Stage::Sources, k) && came_by(
            run,
            n,
            Stage::Bump,
            k,
        )
        &&& (s.stage == Stage::List || s.stage == Stage::Probe) && s.fresh ==> came_by(
            run,
            n,
            Stage::Sources,
            k,
        ) && came_by(run, n, Stage::Bump, k)
        &&& s.stage == Stage::Make ==> built
        &&& s.stage == Stage::Installed || s.stage == Stage::Record ==> came_by(
            run,
            n,
            Stage::Installed,
            k,
        )
        &&& s.stage == Stage::Record ==> came_by(run, n, Stage::Record, k)
        &&& (s.stage == Stage::Installed || s.stage == Stage::Record) && rebuilt(
            s.config,
            s.build[k as int],
        ) ==> built
    }
}

proof fn lemma_still_behind(run: Seq<BuildView>, n: int, stage: Stage, k: nat)
    requires
        0 <= n < run.len() - 1,
    ensures
        came_by(run, n, stage, k) ==> came_by(run, n + 1, stage, k),
        run[n + 1].stage == stage && run[n + 1].at == k ==> came_by(run, n + 1, stage, k),
{
    if came_by(run, n, stage, k) {
        let i = choose|i: int| 0 <= i <= n && (#[trigger] run[i]).stage == stage && run[i].at == k;
        assert(run[i].stage == stage);
    }
}

proof fn lemma_follows(a: BuildView, b: BuildView)
    requires
        a.wf(),
        follows(a, b),
    ensures
        b.wf(),
        b.config == a.config,
        b.build == a.build,
        a.stage == Stage::Record ==> b.at == a.at + 1,
        a.stage != Stage::Record ==> b.at == a.at,
        match b.stage {
            Stage::Bump => a.stage == Stage::Sources,
            Stage::List => b.fresh ==> a.stage == Stage::Bump,
            Stage::Probe => a.stage == Stage::List && b.fresh == a.fresh,
            Stage::Make => a.stage == Stage::Probe && a.fresh,
            Stage::Installed => a.stage == Stage::Make || a.stage == Stage::Probe && !rebuilt(
                a.config,
                a.build[a.at as int],
            ),
            Stage::Record => a.stage == Stage::Installed,
            _ => true,
        },
{
    if a.plain() && b == a.done() {
        law_done_keeps_wf(a);
    } else if a.stage == Stage::Dependencies {
        lemma_enter_wf(a);
    } else if a.stage == Stage::Probe {
        let there = choose|there: Seq<bool>| b == a.probed(there);
        law_built_as_asked(a, there);
    } else if a.stage == Stage::Installed {
        let versions = choose|versions: Seq<Option<Seq<char>>>| b == a.installed(versions);
        lemma_intake(a, versions, a.base().pkgs.len());
    }
}

proof fn lemma_run(
    run: Seq<BuildView>,
    config: ConfigView,
    build: Seq<BuildBaseView>,
    conflicts: Seq<Seq<char>>,
    n: int,
    k: nat,
)
    requires
        is_run(run, config, build, conflicts),
        0 <= n < run.len(),
    ensures
        behind(run, n, k),
        run[0].config == config && run[0].build == build,
    decreases n,
{
    law_begins(config, build, conflicts);
    if n > 0 {
        let m = n - 1;
        lemma_run(run, config, build, conflicts, m, k);
        assert(step_at(run, m));
        lemma_follows(run[m], run[n]);
        lemma_still_behind(run, m, Stage::Sources, k);
        lemma_still_behind(run, m, Stage::Bump, k);
        lemma_still_behind(run, m, Stage::Make, k);
        lemma_still_behind(run, m, Stage::Installed, k);
        lemma_still_behind(run, m, Stage::Record, k);
    } else {
        let first = start(ConfigView { devel: true, ..config }, build, conflicts);
        lemma_enter_wf(BuildView { config, ..first });
        assert(run[0].wf());
        assert(run[0].stage == Stage::Sources ==> run[0].at == 0);
    }
}

} // verus!

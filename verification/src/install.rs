//! From the command line to installed packages.
//!
//! [`Install`] says what has to be done next; whoever runs it does that and reports back.
use vstd::prelude::*;

use crate::actions;
use crate::args::ArgView;
use crate::args::Args;
use crate::args::ArgsView;
use crate::config::Config;
use crate::config::ConfigView;
use crate::error::Error;
use crate::error::ErrorView;
use crate::package;
use crate::package::Actions;
use crate::package::ActionsView;
use crate::package::BuildBaseView;
use crate::package::BuildPackage;
use crate::package::BuildPackageView;
use crate::package::Conflict;
use crate::package::ConflictView;
use crate::package::MissingView;
use crate::package::RepoPackageView;
use crate::pacman;
use crate::style;
use crate::style::Listing;
use crate::text;

verus! {

/// How dependencies are resolved.
#[derive(Clone, Copy, Debug, PartialEq, Eq, Structural)]
pub struct Flags {
    /// Leave targets out that are up to date.
    pub needed: bool,
    /// Take older versions for upgrades too.
    pub enable_downgrade: bool,
    /// Do not look at the versions of dependencies.
    pub no_dep_version: bool,
    /// Do not look at dependencies.
    pub no_deps: bool,
    /// Look for targets in the AUR only.
    pub aur_only: bool,
    /// Look for targets in the repositories only.
    pub repo_only: bool,
    /// Look for packages that provide a target.
    pub target_provides: bool,
    /// Look for packages that provide a missing dependency.
    pub missing_provides: bool,
}

/// What has to be done next.
#[derive(Clone, Copy, Debug, PartialEq, Eq, Structural)]
pub enum Stage {
    /// Keep the user's rights from running out.
    Sudo,
    /// Sort the targets into those of the repositories and those of the AUR.
    Split,
    /// Refresh the databases.
    Refresh,
    /// Hand the targets of the repositories to the package manager.
    Early,
    /// Open the databases.
    Databases,
    /// Look for upgrades in the AUR.
    Updates,
    /// Let the user select upgrades.
    Select,
    /// Leave everything to the package manager.
    Pacman,
    /// Resolve the targets.
    Resolve,
    /// Look for conflicts.
    Conflicts,
    /// Show what will be installed.
    Show,
    /// Ask whether packages that are only needed for building are removed afterwards.
    AskRemove,
    /// Carry out what was resolved.
    Act,
    /// Remove the packages that were only needed for building.
    RemoveMake,
    /// Clean the directory of the base.
    Clean,
    /// Nothing.
    Done,
    /// Nothing: it failed.
    Failed,
}

/// What is told at the end.
#[derive(Clone, Copy, Debug, PartialEq, Eq, Structural)]
pub enum Farewell {
    Silent,
    NothingToDo,
    NoTargets,
}

/// A run over the targets. `F` is what tells of a failure outside of this.
pub struct Install<F> {
    config: Config,
    /// The targets that were asked for.
    given: Vec<String>,
    flags: Flags,
    /// The targets of the repositories that are left.
    repo: Vec<String>,
    /// The targets of the AUR.
    aur: Vec<String>,
    /// All that is to be resolved.
    targets: Vec<String>,
    actions: Actions,
    conflicts: Vec<Conflict>,
    inner_conflicts: Vec<Conflict>,
    remove_make: bool,
    /// The base whose directory is cleaned.
    at: usize,
    code: i32,
    /// Why what was resolved could not be carried out.
    failure: Option<F>,
    farewell: Farewell,
    stage: Stage,
}

#[verifier::ext_equal]
pub struct InstallView<F> {
    pub config: ConfigView,
    pub given: Seq<Seq<char>>,
    pub flags: Flags,
    pub repo: Seq<Seq<char>>,
    pub aur: Seq<Seq<char>>,
    pub targets: Seq<Seq<char>>,
    pub actions: ActionsView,
    pub conflicts: Seq<ConflictView>,
    pub inner_conflicts: Seq<ConflictView>,
    pub remove_make: bool,
    pub at: nat,
    pub code: i32,
    pub failure: Option<F>,
    pub farewell: Farewell,
    pub stage: Stage,
}

impl<F> View for Install<F> {
    type V = InstallView<F>;

    closed spec fn view(&self) -> InstallView<F> {
        InstallView {
            config: self.config@,
            given: text::views(self.given@),
            flags: self.flags,
            repo: text::views(self.repo@),
            aur: text::views(self.aur@),
            targets: text::views(self.targets@),
            actions: self.actions@,
            conflicts: text::views(self.conflicts@),
            inner_conflicts: text::views(self.inner_conflicts@),
            remove_make: self.remove_make,
            at: self.at as nat,
            code: self.code,
            failure: self.failure,
            farewell: self.farewell,
            stage: self.stage,
        }
    }
}

// ---- the beginning ----

/// How dependencies are resolved with some settings.
pub open spec fn flags_of(config: ConfigView) -> Flags {
    let nodeps = config.args.count("d"@, "nodeps"@);
    Flags {
        needed: config.args.count("needed"@, "needed"@) > 1,
        enable_downgrade: config.args.count("u"@, "sysupgrade"@) > 1,
        no_dep_version: nodeps > 0,
        no_deps: nodeps > 1,
        aur_only: config.mode == "aur"@,
        repo_only: config.mode == "repo"@,
        target_provides: config.provides && config.op != "yay"@,
        missing_provides: config.provides,
    }
}

/// The settings while targets are installed: the operation is to sync, the targets are
/// those given, and makepkg looks at dependencies no more than it is asked to.
pub open spec fn prepared(config: ConfigView, targets: Seq<Seq<char>>) -> ConfigView {
    ConfigView {
        mflags: if config.args.count("d"@, "nodeps"@) > 0 {
            config.mflags.push("-d"@)
        } else {
            config.mflags
        },
        op: "sync"@,
        args: config.args.with_op("sync"@).with_targets(targets),
        globals: config.globals.with_op("sync"@),
        targets,
        ..config
    }
}

/// Nothing resolved yet.
pub open spec fn no_actions() -> ActionsView {
    ActionsView {
        build: Seq::empty(),
        install: Seq::empty(),
        missing: Seq::empty(),
        unneeded: Seq::empty(),
        duplicates: Seq::empty(),
    }
}

/// The beginning. While the user's rights are still to be kept, the settings are as they
/// were handed in.
pub open spec fn start<F>(config: ConfigView, targets: Seq<Seq<char>>) -> InstallView<F> {
    InstallView {
        config: if config.sudo_loop {
            config
        } else {
            prepared(config, targets)
        },
        given: targets,
        flags: flags_of(config),
        repo: Seq::empty(),
        aur: Seq::empty(),
        targets: Seq::empty(),
        actions: no_actions(),
        conflicts: Seq::empty(),
        inner_conflicts: Seq::empty(),
        remove_make: false,
        at: 0,
        code: 0,
        failure: None,
        farewell: Farewell::Silent,
        stage: if config.sudo_loop {
            Stage::Sudo
        } else {
            Stage::Split
        },
    }
}

/// A target as it is looked up: a repository, where one is given, and a name. What
/// follows a second slash does not count.
pub open spec fn target_of(target: Seq<char>) -> Seq<char> {
    let parts = text::pieces(target, '/');
    if parts.len() >= 2 {
        parts[0] + "/"@ + parts[1]
    } else {
        parts[0]
    }
}

/// Targets as they are looked up.
pub open spec fn targets_of(targets: Seq<Seq<char>>) -> Seq<Seq<char>> {
    targets.map_values(|target: Seq<char>| target_of(target))
}

/// The options that keep packages from being upgraded.
pub open spec fn ignores(pkgs: Seq<Seq<char>>) -> Seq<ArgView> {
    pkgs.map_values(|pkg: Seq<char>| ArgView { key: "ignore"@, value: Some(pkg) })
}

/// The settings with some packages kept from being upgraded.
pub open spec fn ignoring(config: ConfigView, pkgs: Seq<Seq<char>>) -> ConfigView {
    ConfigView {
        args: ArgsView { args: config.args.args + ignores(pkgs), ..config.args },
        globals: ArgsView { args: config.globals.args + ignores(pkgs), ..config.globals },
        ..config
    }
}

/// The names of the packages that are only needed for building.
pub open spec fn make_names(build: Seq<BuildPackageView>) -> Seq<Seq<char>> {
    build.filter(|pkg: BuildPackageView| pkg.make).map_values(
        |pkg: BuildPackageView| pkg.pkg.name,
    )
}

// ---- stages ----

impl<F> InstallView<F> {
    /// Whether everything is to be upgraded.
    pub open spec fn upgrading(self) -> bool {
        self.config.args.has_arg("u"@, "sysupgrade"@)
    }

    pub open spec fn refreshing(self) -> bool {
        self.config.args.has_arg("y"@, "refresh"@)
    }

    /// Whether it is settled that there is more to do than the package manager alone does.
    pub open spec fn beyond_repo(self) -> bool {
        match self.stage {
            Stage::Databases | Stage::Updates | Stage::Select | Stage::Pacman | Stage::Resolve
            | Stage::Conflicts | Stage::Show | Stage::AskRemove | Stage::Act | Stage::RemoveMake
            | Stage::Clean => true,
            _ => false,
        }
    }

    /// Whether the settings are those for installing the targets that were asked for.
    pub open spec fn synced(self) -> bool {
        &&& self.config.op == "sync"@
        &&& self.config.args.op == "sync"@
        &&& self.config.globals.op == "sync"@
        &&& self.config.targets == self.given
        &&& self.config.args.targets == self.given
    }

    /// Whether it is settled what is done.
    pub open spec fn acting(self) -> bool {
        match self.stage {
            Stage::Act | Stage::RemoveMake | Stage::Clean | Stage::Done => true,
            _ => false,
        }
    }

    /// Whether it is known what the whole comes to.
    pub open spec fn settled(self) -> bool {
        self.acting() && self.stage != Stage::Act
    }

    /// What holds at every stage.
    pub open spec fn wf(self) -> bool {
        &&& self.actions.wf()
        &&& self.beyond_repo() ==> self.aur.len() > 0 || self.upgrading()
        &&& self.stage == Stage::Updates || self.stage == Stage::Select ==> self.upgrading()
        &&& self.stage == Stage::Resolve ==> self.targets.len() > 0 || self.upgrading()
        &&& self.stage == Stage::Conflicts ==> self.actions.build.len() > 0
        &&& self.stage == Stage::AskRemove ==> make_names(self.actions.build_pkgs()).len() > 0
        &&& self.remove_make ==> self.acting() && make_names(
            self.actions.build_pkgs(),
        ).len() > 0
        &&& self.stage != Stage::Done ==> self.farewell == Farewell::Silent
        &&& self.stage != Stage::Sudo ==> self.synced()
        &&& !self.settled() ==> self.code == 0 && self.failure is None
        &&& self.stage == Stage::RemoveMake ==> self.remove_make
        &&& self.stage == Stage::Clean ==> self.at < self.actions.build.len()
            && self.config.clean_after
    }

    pub open spec fn at_stage(self, stage: Stage) -> InstallView<F> {
        InstallView { stage, ..self }
    }

    pub open spec fn ended(self, code: i32, farewell: Farewell) -> InstallView<F> {
        InstallView { code, farewell, stage: Stage::Done, ..self }
    }

    /// The repositories have been dealt with.
    pub open spec fn after_repo(self) -> InstallView<F> {
        if self.aur.len() == 0 && !self.upgrading() {
            self.ended(0, Farewell::Silent)
        } else {
            self.at_stage(Stage::Databases)
        }
    }

    /// The targets were sorted. Unless repositories and AUR are upgraded in one go, the
    /// package manager deals with the repositories first.
    pub open spec fn split(self, repo: Seq<Seq<char>>, aur: Seq<Seq<char>>) -> InstallView<F> {
        let next = InstallView { repo, aur, ..self };
        if self.config.mode == "aur"@ {
            next.after_repo()
        } else if self.config.combined_upgrade {
            if self.refreshing() {
                next.at_stage(Stage::Refresh)
            } else {
                next.after_repo()
            }
        } else if self.refreshing() || self.upgrading() || repo.len() > 0 {
            next.at_stage(Stage::Early)
        } else {
            next.after_repo()
        }
    }

    /// It is known which upgrades are wanted. Where the AUR has nothing to do and
    /// everything is upgraded in one go, the rest is left to the package manager.
    pub open spec fn gathered(
        self,
        aur_keep: Seq<Seq<char>>,
        repo_keep: Seq<Seq<char>>,
    ) -> InstallView<F> {
        let targets = self.repo + self.aur + targets_of(aur_keep) + targets_of(repo_keep);
        let next = InstallView { targets, ..self };
        if self.aur.len() == 0 && aur_keep.len() == 0 && self.config.combined_upgrade {
            next.at_stage(Stage::Pacman)
        } else if targets.len() == 0 && !self.upgrading() {
            next.ended(0, Farewell::NothingToDo)
        } else if self.config.targets.len() == 0 && !self.upgrading() {
            next.ended(1, Farewell::NoTargets)
        } else {
            next.at_stage(Stage::Resolve)
        }
    }

    /// The user has selected upgrades: some from the AUR, some from the repositories, and
    /// some that are not wanted.
    pub open spec fn selected(
        self,
        aur_keep: Seq<Seq<char>>,
        repo_keep: Seq<Seq<char>>,
        repo_skip: Seq<Seq<char>>,
    ) -> InstallView<F> {
        InstallView { config: ignoring(self.config, repo_skip), ..self }.gathered(
            aur_keep,
            repo_keep,
        )
    }

    /// The conflicts are known, and nothing stands in the way.
    pub open spec fn after_conflicts(self) -> InstallView<F> {
        if self.actions.build.len() == 0 && self.actions.install.len() == 0 {
            self.ended(
                0,
                if self.upgrading() || self.aur.len() > 0 {
                    Farewell::NothingToDo
                } else {
                    Farewell::Silent
                },
            )
        } else {
            self.at_stage(Stage::Show)
        }
    }

    /// The targets were resolved.
    pub open spec fn resolved(self, actions: ActionsView) -> InstallView<F> {
        let next = InstallView { actions, ..self };
        if actions::obstacle(self.config, actions) is Some {
            next.at_stage(Stage::Failed)
        } else if actions.build.len() > 0 {
            next.at_stage(Stage::Conflicts)
        } else {
            next.after_conflicts()
        }
    }

    /// The conflicts are known.
    pub open spec fn conflicts_found(
        self,
        conflicts: Seq<ConflictView>,
        inner_conflicts: Seq<ConflictView>,
    ) -> InstallView<F> {
        let next = InstallView { conflicts, inner_conflicts, ..self };
        if actions::deadlocked(self.config, conflicts, inner_conflicts) {
            next.at_stage(Stage::Failed)
        } else {
            next.after_conflicts()
        }
    }

    /// What will be installed was shown.
    pub open spec fn shown(self) -> InstallView<F> {
        if make_names(self.actions.build_pkgs()).len() > 0 {
            if self.config.remove_make == "ask"@ {
                self.at_stage(Stage::AskRemove)
            } else {
                InstallView { remove_make: self.config.remove_make == "yes"@, ..self }.at_stage(
                    Stage::Act,
                )
            }
        } else {
            self.at_stage(Stage::Act)
        }
    }

    /// The question was answered.
    pub open spec fn answered(self, yes: bool) -> InstallView<F> {
        InstallView { remove_make: yes, stage: Stage::Act, ..self }
    }

    /// The directories of the bases from `at` on are cleaned, where that is wanted.
    pub open spec fn clean(self, at: nat) -> InstallView<F> {
        if self.config.clean_after && at < self.actions.build.len() {
            InstallView { at, stage: Stage::Clean, ..self }
        } else {
            self.at_stage(Stage::Done)
        }
    }

    pub open spec fn with_result(self, result: Result<i32, F>) -> InstallView<F> {
        match result {
            Ok(code) => InstallView { code, failure: None, ..self },
            Err(failure) => InstallView { code: 0, failure: Some(failure), ..self },
        }
    }

    /// What was resolved was carried out, or was not: the rest is done either way.
    pub open spec fn acted(self, result: Result<i32, F>) -> InstallView<F> {
        let next = self.with_result(result);
        if self.remove_make {
            next.at_stage(Stage::RemoveMake)
        } else {
            next.clean(0)
        }
    }

    /// What the whole comes to.
    pub open spec fn result(self) -> Result<i32, F> {
        match self.failure {
            Some(failure) => Err(failure),
            None => Ok(self.code),
        }
    }

    /// Whether the stage ends by itself, with nothing to report.
    pub open spec fn plain(self) -> bool {
        match self.stage {
            Stage::Sudo | Stage::Refresh | Stage::Early | Stage::Databases | Stage::Updates
            | Stage::Show | Stage::RemoveMake | Stage::Clean => true,
            _ => false,
        }
    }

    /// The stage was done.
    pub open spec fn done(self) -> InstallView<F> {
        match self.stage {
            Stage::Sudo => InstallView {
                config: prepared(self.config, self.given),
                ..self
            }.at_stage(Stage::Split),
            Stage::Refresh => self.after_repo(),
            Stage::Early => InstallView { repo: Seq::empty(), ..self }.after_repo(),
            Stage::Databases => if self.upgrading() {
                if self.config.mode != "repo"@ {
                    self.at_stage(Stage::Updates)
                } else {
                    self.at_stage(Stage::Select)
                }
            } else {
                self.gathered(Seq::empty(), Seq::empty())
            },
            Stage::Updates => self.at_stage(Stage::Select),
            Stage::Show => self.shown(),
            Stage::RemoveMake => self.clean(0),
            Stage::Clean => self.clean(self.at + 1),
            _ => self,
        }
    }

    /// The message that goes with the stage.
    pub open spec fn notice(self) -> Option<Seq<char>> {
        let color = self.config.color;
        match self.stage {
            Stage::Updates => Some(
                style::heading(color.action, color.bold, "Looking for AUR upgrades"@),
            ),
            Stage::Resolve => Some(
                style::heading(color.action, color.bold, "Resolving dependencies..."@),
            ),
            Stage::Done => match self.farewell {
                Farewell::Silent => None,
                Farewell::NothingToDo => Some(" there is nothing to do"@),
                Farewell::NoTargets => Some("no targets"@),
            },
            _ => None,
        }
    }

    /// The call that leaves everything to the package manager.
    pub open spec fn pacman_call(self) -> ArgsView {
        self.config.args.with_targets(self.targets).without("y"@)
    }

    /// The call that hands the targets of the repositories to the package manager.
    pub open spec fn early_call(self) -> ArgsView {
        self.config.args.with_targets(self.repo)
    }

    /// The base whose directory is to be cleaned.
    pub open spec fn clean_base(self) -> Seq<char> {
        self.actions.build[self.at as int].package_base()
    }

    /// The call that removes the packages that were only needed for building.
    pub open spec fn remove_call(self) -> ArgsView {
        self.config.globals.with_op("remove"@).with_arg("nocnfirm"@).with_targets(
            make_names(self.actions.build_pkgs()),
        )
    }

    /// How far the stage is from the end.
    pub open spec fn rank(self) -> int {
        match self.stage {
            Stage::Sudo => 16,
            Stage::Split => 15,
            Stage::Refresh => 14,
            Stage::Early => 13,
            Stage::Databases => 12,
            Stage::Updates => 11,
            Stage::Select => 10,
            Stage::Pacman => 9,
            Stage::Resolve => 8,
            Stage::Conflicts => 7,
            Stage::Show => 6,
            Stage::AskRemove => 5,
            Stage::Act => 4,
            Stage::RemoveMake => 3,
            Stage::Clean => 2,
            Stage::Done => 0,
            Stage::Failed => 0,
        }
    }

    /// Whether the run is closer to the end than `before`: at a later stage, or at the
    /// next directory to clean.
    pub open spec fn after(self, before: InstallView<F>) -> bool {
        ||| self.rank() < before.rank()
        ||| self.stage == Stage::Clean && before.stage == Stage::Clean && self.actions
            == before.actions && self.at == before.at + 1
    }
}

proof fn lemma_more_args(args: ArgsView, more: Seq<ArgView>, short: Seq<char>, long: Seq<char>)
    requires
        args.has_arg(short, long),
    ensures
        (ArgsView { args: args.args + more, ..args }).has_arg(short, long),
{
    let all = ArgsView { args: args.args + more, ..args };
    let i = choose|i: int|
        0 <= i < args.args.len() && crate::args::called(short, long)(#[trigger] args.args[i]);
    assert(all.args[i] == args.args[i]);
}

/// What holds at every stage still holds after every report.
pub proof fn law_reports_keep_wf<F>(
    s: InstallView<F>,
    names: (Seq<Seq<char>>, Seq<Seq<char>>, Seq<Seq<char>>),
    actions: ActionsView,
    conflicts: (Seq<ConflictView>, Seq<ConflictView>),
    yes: bool,
    code: i32,
    result: Result<i32, F>,
)
    requires
        s.wf(),
        actions.wf(),
    ensures
        s.plain() ==> s.done().wf(),
        s.stage == Stage::Split ==> s.split(names.0, names.1).wf(),
        s.stage == Stage::Select ==> s.selected(names.0, names.1, names.2).wf(),
        s.stage == Stage::Pacman ==> s.ended(code, Farewell::Silent).wf(),
        s.stage == Stage::Resolve ==> s.resolved(actions).wf(),
        s.stage == Stage::Conflicts ==> s.conflicts_found(conflicts.0, conflicts.1).wf(),
        s.stage == Stage::AskRemove ==> s.answered(yes).wf(),
        s.stage == Stage::Act ==> s.acted(result).wf(),
{
    lemma_done_wf(s);
    if s.stage == Stage::Select {
        lemma_selected_wf(s, names.0, names.1, names.2);
    }
}

proof fn lemma_done_wf<F>(s: InstallView<F>)
    requires
        s.wf(),
    ensures
        s.plain() ==> s.done().wf(),
{
}

proof fn lemma_selected_wf<F>(
    s: InstallView<F>,
    aur_keep: Seq<Seq<char>>,
    repo_keep: Seq<Seq<char>>,
    repo_skip: Seq<Seq<char>>,
)
    requires
        s.wf(),
        s.stage == Stage::Select,
    ensures
        s.selected(aur_keep, repo_keep, repo_skip).wf(),
{
    lemma_more_args(s.config.args, ignores(repo_skip), "u"@, "sysupgrade"@);
}

/// There is always a target when it comes to resolving, unless everything is upgraded:
/// that there is nothing to do is known only once the targets were resolved.
pub proof fn law_targets_to_resolve<F>(
    s: InstallView<F>,
    aur_keep: Seq<Seq<char>>,
    repo_keep: Seq<Seq<char>>,
)
    requires
        s.wf(),
        s.stage == Stage::Databases || s.stage == Stage::Select,
    ensures
        s.gathered(aur_keep, repo_keep).farewell != Farewell::NothingToDo,
{
}

/// A package that is not to be upgraded is ignored in both kinds of calls of the package
/// manager, and nothing that was asked for is forgotten.
pub proof fn law_skipped_is_ignored(config: ConfigView, skip: Seq<Seq<char>>, pkg: Seq<char>)
    requires
        skip.contains(pkg),
    ensures
        ignoring(config, skip).args.args.contains(ArgView { key: "ignore"@, value: Some(pkg) }),
        ignoring(config, skip).globals.args.contains(ArgView { key: "ignore"@, value: Some(pkg) }),
        config.args.args.is_prefix_of(ignoring(config, skip).args.args),
        config.globals.args.is_prefix_of(ignoring(config, skip).globals.args),
        ignoring(config, skip).args.targets == config.args.targets,
{
    let i = choose|i: int| 0 <= i < skip.len() && skip[i] == pkg;
    let arg = ArgView { key: "ignore"@, value: Some(pkg) };
    assert(ignores(skip)[i] == arg);
    assert(ignoring(config, skip).args.args[config.args.args.len() + i] == arg);
    assert(ignoring(config, skip).globals.args[config.globals.args.len() + i] == arg);
}

/// A name, and a name with its repository, is looked up as it is given.
pub proof fn law_plain_target(repo: Seq<char>, name: Seq<char>)
    requires
        !repo.contains('/'),
        !name.contains('/'),
    ensures
        target_of(name) == name,
        target_of(repo + "/"@ + name) == repo + "/"@ + name,
{
    reveal_strlit("/");
    assert("/"@ =~= seq!['/']);
    text::lemma_pieces_whole(name, '/');
    text::lemma_pieces_whole(repo, '/');
    text::lemma_pieces_concat(repo, '/', name);
    assert(repo + "/"@ + name =~= repo.push('/') + name);
}

/// Every report brings the end closer.
pub proof fn law_progress<F>(
    s: InstallView<F>,
    names: (Seq<Seq<char>>, Seq<Seq<char>>, Seq<Seq<char>>),
    actions: ActionsView,
    conflicts: (Seq<ConflictView>, Seq<ConflictView>),
    yes: bool,
    code: i32,
    result: Result<i32, F>,
)
    requires
        s.wf(),
    ensures
        s.plain() ==> s.done().after(s),
        s.stage == Stage::Split ==> s.split(names.0, names.1).after(s),
        s.stage == Stage::Select ==> s.selected(names.0, names.1, names.2).after(s),
        s.stage == Stage::Pacman ==> s.ended(code, Farewell::Silent).after(s),
        s.stage == Stage::Resolve ==> s.resolved(actions).after(s),
        s.stage == Stage::Conflicts ==> s.conflicts_found(conflicts.0, conflicts.1).after(s),
        s.stage == Stage::AskRemove ==> s.answered(yes).after(s),
        s.stage == Stage::Act ==> s.acted(result).after(s),
{
}

// ---- running it ----

fn empty_texts() -> (r: Vec<String>)
    ensures
        text::views(r@) == Seq::<Seq<char>>::empty(),
{
    let r: Vec<String> = Vec::new();
    assert(text::views(r@) =~= Seq::<Seq<char>>::empty());
    r
}

fn no_conflicts() -> (r: Vec<Conflict>)
    ensures
        text::views(r@) == Seq::<ConflictView>::empty(),
{
    let r: Vec<Conflict> = Vec::new();
    assert(text::views(r@) =~= Seq::<ConflictView>::empty());
    r
}

fn nothing_resolved() -> (r: Actions)
    ensures
        r@ == no_actions(),
{
    let r = Actions {
        build: Vec::new(),
        install: Vec::new(),
        missing: Vec::new(),
        unneeded: Vec::new(),
        duplicates: Vec::new(),
    };
    assert(r@.build =~= Seq::<BuildBaseView>::empty());
    assert(r@.install =~= Seq::<RepoPackageView>::empty());
    assert(r@.missing =~= Seq::<MissingView>::empty());
    assert(r@.unneeded =~= Seq::<Seq<char>>::empty());
    assert(r@.duplicates =~= Seq::<Seq<char>>::empty());
    r
}

fn make_flags(config: &Config) -> (r: Flags)
    ensures
        r == flags_of(config@),
{
    let nodeps = config.args.count("d", "nodeps");
    Flags {
        needed: config.args.count("needed", "needed") > 1,
        enable_downgrade: config.args.count("u", "sysupgrade") > 1,
        no_dep_version: nodeps > 0,
        no_deps: nodeps > 1,
        aur_only: text::same(config.mode.as_str(), "aur"),
        repo_only: text::same(config.mode.as_str(), "repo"),
        target_provides: config.provides && !text::same(config.op.as_str(), "yay"),
        missing_provides: config.provides,
    }
}

/// Makes the settings those for installing the targets.
fn prepare(config: &mut Config, targets: &Vec<String>)
    ensures
        final(config)@ == prepared(old(config)@, text::views(targets@)),
{
    if config.args.count("d", "nodeps") > 0 {
        let mflag = "-d".to_owned();
        proof {
            text::lemma_views_push(config.mflags@, mflag);
        }
        config.mflags.push(mflag);
    }
    config.op = "sync".to_owned();
    config.args.op("sync");
    config.globals.op("sync");
    config.targets = text::copy_texts(targets);
    config.args.targets = text::copy_texts(targets);
}

/// Starts with the targets.
pub fn install<F>(config: Config, targets_str: &Vec<String>) -> (r: Install<F>)
    ensures
        r@.wf(),
        r@ == start::<F>(config@, text::views(targets_str@)),
{
    let flags = make_flags(&config);
    let mut config = config;
    let stage = if config.sudo_loop {
        Stage::Sudo
    } else {
        prepare(&mut config, targets_str);
        Stage::Split
    };
    Install {
        config,
        given: text::copy_texts(targets_str),
        flags,
        repo: empty_texts(),
        aur: empty_texts(),
        targets: empty_texts(),
        actions: nothing_resolved(),
        conflicts: no_conflicts(),
        inner_conflicts: no_conflicts(),
        remove_make: false,
        at: 0,
        code: 0,
        failure: None,
        farewell: Farewell::Silent,
        stage,
    }
}

fn look_up(target: &str) -> (r: String)
    ensures
        r@ == target_of(target@),
{
    let parts = text::split(target, '/');
    proof {
        text::lemma_pieces_some(target@, '/');
    }
    assert(text::views(parts@)[0] == parts[0]@);
    let mut out = parts[0].clone();
    if parts.len() >= 2 {
        assert(text::views(parts@)[1] == parts[1]@);
        out.append("/");
        out.append(parts[1].as_str());
    }
    out
}

fn add_targets(targets: &mut Vec<String>, more: &Vec<String>)
    ensures
        text::views(final(targets)@) == text::views(old(targets)@) + targets_of(text::views(more@)),
{
    let ghost before = text::views(targets@);
    let ghost all = targets_of(text::views(more@));
    assert(before =~= before + all.take(0));
    for i in 0..more.len()
        invariant
            before == text::views(old(targets)@),
            all == targets_of(text::views(more@)),
            text::views(targets@) == before + all.take(i as int),
    {
        let target = look_up(more[i].as_str());
        proof {
            text::lemma_views_push(targets@, target);
            text::lemma_take_push(all, i as int);
            assert(before + all.take(i as int).push(target@) =~= (before + all.take(i as int)).push(
                target@,
            ));
        }
        targets.push(target);
    }
    assert(all.take(more@.len() as int) =~= all);
}

fn ignore(args: &mut Args, pkgs: &Vec<String>)
    ensures
        final(args)@ == (ArgsView {
            args: old(args)@.args + ignores(text::views(pkgs@)),
            ..old(args)@
        }),
{
    let ghost before = args@;
    let ghost all = ignores(text::views(pkgs@));
    assert(before.args =~= before.args + all.take(0));
    for i in 0..pkgs.len()
        invariant
            before == old(args)@,
            all == ignores(text::views(pkgs@)),
            args@ == (ArgsView { args: before.args + all.take(i as int), ..before }),
    {
        proof {
            text::lemma_take_push(all, i as int);
        }
        args.push_value("ignore", pkgs[i].as_str());
        assert(args@.args =~= before.args + all.take(i + 1));
    }
    assert(all.take(pkgs@.len() as int) =~= all);
}

fn list_make(actions: &Actions) -> (r: Vec<String>)
    ensures
        text::views(r@) == make_names(actions@.build_pkgs()),
{
    let pkgs: Vec<&BuildPackage> = actions.build_pkgs();
    let ghost all = actions@.build_pkgs();
    let ghost test = |pkg: BuildPackageView| pkg.make;
    let ghost name = |pkg: BuildPackageView| pkg.pkg.name;
    let mut out: Vec<String> = Vec::new();
    proof {
        reveal(Seq::filter);
    }
    assert(all.take(0) =~= Seq::<BuildPackageView>::empty());
    assert(text::views(out@) =~= all.take(0).filter(test).map_values(name));
    for i in 0..pkgs.len()
        invariant
            all == package::borrowed(pkgs@),
            test == (|pkg: BuildPackageView| pkg.make),
            name == (|pkg: BuildPackageView| pkg.pkg.name),
            text::views(out@) == all.take(i as int).filter(test).map_values(name),
    {
        let pkg = pkgs[i];
        proof {
            text::lemma_take_push(all, i as int);
            text::lemma_filter_push(all.take(i as int), all[i as int], test);
        }
        assert(all[i as int] == pkg@);
        if pkg.make {
            let item = pkg.pkg.name.clone();
            proof {
                text::lemma_views_push(out@, item);
                let before = all.take(i as int).filter(test);
                assert(before.push(pkg@).map_values(name) =~= before.map_values(name).push(item@));
            }
            out.push(item);
        }
    }
    assert(all.take(pkgs@.len() as int) =~= all);
    out
}

impl<F> Install<F> {
    /// What has to be done next.
    pub fn stage(&self) -> (r: Stage)
        ensures
            r == self@.stage,
    {
        self.stage
    }

    /// The settings, as they are by now.
    pub fn config(&self) -> (r: &Config)
        ensures
            r@ == self@.config,
    {
        &self.config
    }

    /// How dependencies are resolved.
    pub fn flags(&self) -> (r: Flags)
        ensures
            r == self@.flags,
    {
        self.flags
    }

    /// All that is to be resolved.
    pub fn targets(&self) -> (r: &Vec<String>)
        ensures
            text::views(r@) == self@.targets,
    {
        &self.targets
    }

    /// What resolving the targets came to.
    pub fn actions(&self) -> (r: &Actions)
        ensures
            r@ == self@.actions,
    {
        &self.actions
    }

    /// The conflicts with installed packages.
    pub fn conflicts(&self) -> (r: &Vec<Conflict>)
        ensures
            text::views(r@) == self@.conflicts,
    {
        &self.conflicts
    }

    /// The conflicts of packages among each other.
    pub fn inner_conflicts(&self) -> (r: &Vec<Conflict>)
        ensures
            text::views(r@) == self@.inner_conflicts,
    {
        &self.inner_conflicts
    }

    fn upgrading(&self) -> (r: bool)
        ensures
            r == self@.upgrading(),
    {
        self.config.args.has_arg("u", "sysupgrade")
    }

    fn end(&mut self, code: i32, farewell: Farewell)
        ensures
            final(self)@ == old(self)@.ended(code, farewell),
    {
        self.code = code;
        self.farewell = farewell;
        self.stage = Stage::Done;
    }

    fn after_repo(&mut self)
        ensures
            final(self)@ == old(self)@.after_repo(),
    {
        if self.aur.len() == 0 && !self.upgrading() {
            self.end(0, Farewell::Silent);
        } else {
            self.stage = Stage::Databases;
        }
    }

    /// Reports the targets of the repositories and those of the AUR.
    pub fn split(&mut self, repo: Vec<String>, aur: Vec<String>)
        requires
            old(self)@.wf(),
            old(self)@.stage == Stage::Split,
        ensures
            final(self)@.wf(),
            final(self)@ == old(self)@.split(text::views(repo@), text::views(aur@)),
    {
        self.repo = repo;
        self.aur = aur;
        let refreshing = self.config.args.has_arg("y", "refresh");
        if text::same(self.config.mode.as_str(), "aur") {
            self.after_repo();
        } else if self.config.combined_upgrade {
            if refreshing {
                self.stage = Stage::Refresh;
            } else {
                self.after_repo();
            }
        } else if refreshing || self.upgrading() || self.repo.len() > 0 {
            self.stage = Stage::Early;
        } else {
            self.after_repo();
        }
    }

    fn gather(&mut self, aur_keep: &Vec<String>, repo_keep: &Vec<String>)
        ensures
            final(self)@ == old(self)@.gathered(
                text::views(aur_keep@),
                text::views(repo_keep@),
            ),
    {
        let mut targets = text::copy_texts(&self.repo);
        text::append_texts(&mut targets, &self.aur);
        add_targets(&mut targets, aur_keep);
        add_targets(&mut targets, repo_keep);
        self.targets = targets;
        if self.aur.len() == 0 && aur_keep.len() == 0 && self.config.combined_upgrade {
            self.stage = Stage::Pacman;
        } else if self.targets.len() == 0 && !self.upgrading() {
            self.end(0, Farewell::NothingToDo);
        } else if self.config.targets.len() == 0 && !self.upgrading() {
            self.end(1, Farewell::NoTargets);
        } else {
            self.stage = Stage::Resolve;
        }
    }

    fn ignore(&mut self, pkgs: &Vec<String>)
        ensures
            final(self)@ == (InstallView {
                config: ignoring(old(self)@.config, text::views(pkgs@)),
                ..old(self)@
            }),
    {
        ignore(&mut self.config.globals, pkgs);
        ignore(&mut self.config.args, pkgs);
    }

    /// Reports the upgrades that are wanted, from the AUR and from the repositories, and
    /// the upgrades from the repositories that are not.
    pub fn selected(
        &mut self,
        aur_keep: &Vec<String>,
        repo_keep: &Vec<String>,
        repo_skip: &Vec<String>,
    )
        requires
            old(self)@.wf(),
            old(self)@.stage == Stage::Select,
        ensures
            final(self)@.wf(),
            final(self)@ == old(self)@.selected(
                text::views(aur_keep@),
                text::views(repo_keep@),
                text::views(repo_skip@),
            ),
    {
        proof {
            lemma_selected_wf(
                self@,
                text::views(aur_keep@),
                text::views(repo_keep@),
                text::views(repo_skip@),
            );
        }
        self.ignore(repo_skip);
        self.gather(aur_keep, repo_keep);
    }

    /// Reports what the package manager came to when everything was left to it.
    pub fn pacman_done(&mut self, code: i32)
        requires
            old(self)@.wf(),
            old(self)@.stage == Stage::Pacman,
        ensures
            final(self)@.wf(),
            final(self)@ == old(self)@.ended(code, Farewell::Silent),
    {
        self.end(code, Farewell::Silent);
    }

    fn after_conflicts(&mut self)
        ensures
            final(self)@ == old(self)@.after_conflicts(),
    {
        if self.actions.build.len() == 0 && self.actions.install.len() == 0 {
            if self.upgrading() || self.aur.len() > 0 {
                self.end(0, Farewell::NothingToDo);
            } else {
                self.end(0, Farewell::Silent);
            }
        } else {
            self.stage = Stage::Show;
        }
    }

    /// Reports what resolving the targets came to. Fails where a package is wanted twice or
    /// cannot be found.
    pub fn resolved(&mut self, actions: Actions) -> (r: Result<(), Error>)
        requires
            old(self)@.wf(),
            old(self)@.stage == Stage::Resolve,
            actions@.wf(),
        ensures
            final(self)@.wf(),
            final(self)@ == old(self)@.resolved(actions@),
            match r {
                Ok(()) => actions::obstacle(old(self)@.config, actions@) is None,
                Err(e) => actions::obstacle(old(self)@.config, actions@) == Some(e@),
            },
    {
        self.actions = actions;
        match actions::check_actions(&self.config, &self.actions) {
            Err(e) => {
                self.stage = Stage::Failed;
                Err(e)
            },
            Ok(build) => {
                if build {
                    self.stage = Stage::Conflicts;
                } else {
                    self.after_conflicts();
                }
                Ok(())
            },
        }
    }

    /// Reports the conflicts with installed packages and those of the packages among each
    /// other. Gives what is told about them; fails where the user would have to be asked
    /// and does not want to be.
    pub fn conflicts_found(
        &mut self,
        conflicts: Vec<Conflict>,
        inner_conflicts: Vec<Conflict>,
    ) -> (r: (String, Result<(), Error>))
        requires
            old(self)@.wf(),
            old(self)@.stage == Stage::Conflicts,
        ensures
            final(self)@.wf(),
            final(self)@ == old(self)@.conflicts_found(
                text::views(conflicts@),
                text::views(inner_conflicts@),
            ),
            r.0@ == actions::conflict_text(
                old(self)@.config,
                old(self)@.actions,
                text::views(conflicts@),
                text::views(inner_conflicts@),
            ),
            match r.1 {
                Ok(()) => final(self)@.stage != Stage::Failed,
                Err(e) => final(self)@.stage == Stage::Failed && e@ == ErrorView::Conflicts,
            },
    {
        self.conflicts = conflicts;
        self.inner_conflicts = inner_conflicts;
        let (told, result) = actions::check_conflicts(
            &self.config,
            &self.actions,
            &self.conflicts,
            &self.inner_conflicts,
        );
        match result {
            Err(e) => {
                self.stage = Stage::Failed;
                (told, Err(e))
            },
            Ok(()) => {
                self.after_conflicts();
                (told, Ok(()))
            },
        }
    }

    /// The lists of what will be installed.
    pub fn listings(&self) -> (r: Vec<Listing>)
        ensures
            text::views(r@) == actions::install_listings(self@.config, self@.actions),
    {
        actions::print_install(&self.config, &self.actions)
    }

    fn show(&mut self)
        ensures
            final(self)@ == old(self)@.shown(),
    {
        if list_make(&self.actions).len() > 0 {
            if text::same(self.config.remove_make.as_str(), "ask") {
                self.stage = Stage::AskRemove;
            } else {
                self.remove_make = text::same(self.config.remove_make.as_str(), "yes");
                self.stage = Stage::Act;
            }
        } else {
            self.stage = Stage::Act;
        }
    }

    /// The question whether packages that are only needed for building are removed
    /// afterwards.
    pub fn question(&self) -> (r: &'static str)
        ensures
            r@ == "Remove make dependencies after install?"@,
    {
        "Remove make dependencies after install?"
    }

    /// Reports the answer to the question.
    pub fn answered(&mut self, yes: bool)
        requires
            old(self)@.wf(),
            old(self)@.stage == Stage::AskRemove,
        ensures
            final(self)@.wf(),
            final(self)@ == old(self)@.answered(yes),
    {
        self.remove_make = yes;
        self.stage = Stage::Act;
    }

    fn clean(&mut self, at: usize)
        ensures
            final(self)@ == old(self)@.clean(at as nat),
    {
        if self.config.clean_after && at < self.actions.build.len() {
            self.at = at;
            self.stage = Stage::Clean;
        } else {
            self.stage = Stage::Done;
        }
    }

    /// Reports what came of carrying out what was resolved. The rest is done either way; a
    /// failure is what the whole comes to.
    pub fn acted(&mut self, result: Result<i32, F>)
        requires
            old(self)@.wf(),
            old(self)@.stage == Stage::Act,
        ensures
            final(self)@.wf(),
            final(self)@ == old(self)@.acted(result),
    {
        match result {
            Ok(code) => {
                self.code = code;
            },
            Err(failure) => {
                self.failure = Some(failure);
            },
        }
        if self.remove_make {
            self.stage = Stage::RemoveMake;
        } else {
            self.clean(0);
        }
    }

    fn done_databases(&mut self)
        requires
            old(self)@.stage == Stage::Databases,
        ensures
            final(self)@ == old(self)@.done(),
    {
        if self.upgrading() {
            if !text::same(self.config.mode.as_str(), "repo") {
                self.stage = Stage::Updates;
            } else {
                self.stage = Stage::Select;
            }
        } else {
            self.gather(&empty_texts(), &empty_texts());
        }
    }

    fn done_early(&mut self)
        requires
            old(self)@.stage == Stage::Sudo || old(self)@.stage == Stage::Refresh || old(
                self,
            )@.stage == Stage::Early,
        ensures
            final(self)@ == old(self)@.done(),
    {
        match self.stage {
            Stage::Sudo => {
                prepare(&mut self.config, &self.given);
                self.stage = Stage::Split;
            },
            Stage::Refresh => self.after_repo(),
            _ => {
                self.repo = empty_texts();
                self.after_repo();
            },
        }
    }

    fn done_late(&mut self)
        requires
            old(self)@.stage == Stage::Updates || old(self)@.stage == Stage::Show || old(
                self,
            )@.stage == Stage::RemoveMake || old(self)@.stage == Stage::Clean,
            old(self)@.stage == Stage::Clean ==> old(self)@.at < old(self)@.actions.build.len(),
        ensures
            final(self)@ == old(self)@.done(),
    {
        match self.stage {
            Stage::Updates => {
                self.stage = Stage::Select;
            },
            Stage::Show => self.show(),
            Stage::RemoveMake => self.clean(0),
            _ => {
                assert(self.at < self.actions.build.len());
                let next: usize = self.at + 1;
                self.clean(next);
            },
        }
    }

    /// Reports that the stage was done.
    pub fn done(&mut self)
        requires
            old(self)@.wf(),
            old(self)@.plain(),
        ensures
            final(self)@.wf(),
            final(self)@ == old(self)@.done(),
    {
        proof {
            lemma_done_wf(self@);
        }
        match self.stage {
            Stage::Sudo => self.done_early(),
            Stage::Refresh => self.done_early(),
            Stage::Early => self.done_early(),
            Stage::Databases => self.done_databases(),
            _ => self.done_late(),
        }
    }

    /// The call that refreshes the databases.
    pub fn refresh_call(&self) -> (r: Args)
        ensures
            r@ == pacman::refresh_call(self@.config),
    {
        pacman::early_refresh(&self.config)
    }

    /// The call that hands the targets of the repositories to the package manager.
    pub fn early_call(&self) -> (r: Args)
        ensures
            r@ == self@.early_call(),
    {
        pacman::early_pacman(&self.config, &self.repo)
    }

    /// The call that leaves everything to the package manager.
    pub fn pacman_call(&self) -> (r: Args)
        ensures
            r@ == self@.pacman_call(),
    {
        let mut args = self.config.pacman_args();
        args.targets = text::copy_texts(&self.targets);
        args.remove("y");
        args
    }

    /// The call that removes the packages that were only needed for building.
    pub fn remove_call(&self) -> (r: Args)
        ensures
            r@ == self@.remove_call(),
    {
        let mut args = self.config.pacman_globals();
        args.op("remove");
        args.arg("nocnfirm");
        args.targets = list_make(&self.actions);
        args
    }

    /// The base whose directory is to be cleaned.
    pub fn clean_base(&self) -> (r: &str)
        requires
            self@.wf(),
            self@.stage == Stage::Clean,
        ensures
            r@ == self@.clean_base(),
    {
        assert(self@.actions.build[self.at as int] == self.actions.build[self.at as int]@);
        self.actions.build[self.at].package_base()
    }

    /// The message that goes with the stage.
    pub fn notice(&self) -> (r: Option<String>)
        ensures
            text::option_view(r) == self@.notice(),
    {
        let c = self.config.color;
        match self.stage {
            Stage::Updates => Some(
                style::heading_text(c.action, c.bold, "Looking for AUR upgrades"),
            ),
            Stage::Resolve => Some(
                style::heading_text(c.action, c.bold, "Resolving dependencies..."),
            ),
            Stage::Done => match self.farewell {
                Farewell::Silent => None,
                Farewell::NothingToDo => Some(" there is nothing to do".to_owned()),
                Farewell::NoTargets => Some("no targets".to_owned()),
            },
            _ => None,
        }
    }

    /// The result of the whole, unless it failed.
    pub fn code(&self) -> (r: i32)
        ensures
            r == self@.code,
    {
        self.code
    }

    /// Gives the settings back, and what the whole comes to.
    pub fn finish(self) -> (r: (Config, Result<i32, F>))
        requires
            self@.wf(),
            self@.stage == Stage::Done,
        ensures
            r.0@ == self@.config,
            r.1 == self@.result(),
    {
        let result = match self.failure {
            Some(failure) => Err(failure),
            None => Ok(self.code),
        };
        (self.config, result)
    }

    /// Gives the settings back.
    pub fn into_config(self) -> (r: Config)
        ensures
            r@ == self@.config,
    {
        self.config
    }
}

/// What came of carrying out what was resolved is what the whole comes to, be it a result
/// or a failure: what comes afterwards does not change it, and no word is said about it.
pub proof fn law_result_is_kept<F>(s: InstallView<F>, result: Result<i32, F>)
    requires
        s.wf(),
    ensures
        s.stage == Stage::Act ==> s.acted(result).result() == result,
        s.stage == Stage::RemoveMake || s.stage == Stage::Clean ==> s.done().result() == s.result()
            && s.done().notice() is None,
{
}

/// A failure changes nothing about what comes afterwards: the same packages are removed
/// and the same directories are cleaned.
pub proof fn law_failure_cleans_up<F>(s: InstallView<F>, failure: F, code: i32)
    requires
        s.wf(),
        s.stage == Stage::Act,
    ensures
        s.acted(Err(failure)) == s.acted(Ok(code)).with_result(Err(failure)),
        s.remove_make ==> s.acted(Err(failure)).done() == s.acted(Ok(code)).done().with_result(
            Err(failure),
        ),
{
    lemma_clean_result(s.with_result(Ok(code)), Err(failure), 0);
    if s.remove_make {
        lemma_clean_result(s.acted(Ok(code)), Err(failure), 0);
    }
}

/// Which directory is cleaned next does not depend on what the whole comes to.
pub proof fn law_cleaning_ignores_result<F>(s: InstallView<F>, result: Result<i32, F>)
    requires
        s.stage == Stage::Clean,
    ensures
        s.with_result(result).done() == s.done().with_result(result),
{
    lemma_clean_result(s, result, s.at + 1);
    assert(s.done() == s.clean(s.at + 1));
    assert(s.with_result(result).done() == s.with_result(result).clean(s.at + 1));
}

proof fn lemma_clean_result<F>(s: InstallView<F>, result: Result<i32, F>, at: nat)
    ensures
        s.with_result(result).clean(at) == s.clean(at).with_result(result),
{
}

/// From the moment on when the user's rights are kept, whatever comes of the rest, the
/// operation is to sync and the targets are those that were asked for.
pub proof fn law_stays_synced<F>(s: InstallView<F>)
    requires
        s.wf(),
        s.stage != Stage::Sudo,
    ensures
        s.config.op == "sync"@ && s.config.args.op == "sync"@ && s.config.globals.op == "sync"@,
        s.config.targets == s.given && s.config.args.targets == s.given,
{
}

/// As long as the user's rights are still to be kept, the settings are as they were handed
/// in; then they become those for installing the targets.
pub proof fn law_settings<F>(config: ConfigView, targets: Seq<Seq<char>>)
    ensures
        ({
            let s = start::<F>(config, targets);
            &&& s.stage == Stage::Sudo ==> s.config == config && s.done().config == prepared(
                config,
                targets,
            )
            &&& s.stage != Stage::Sudo ==> s.config == prepared(config, targets)
        }),
{
}

/// A target that the package manager has been given already is not resolved again.
pub proof fn law_early_targets_once<F>(
    s: InstallView<F>,
    aur_keep: Seq<Seq<char>>,
    repo_keep: Seq<Seq<char>>,
)
    requires
        s.stage == Stage::Early,
    ensures
        s.done().repo.len() == 0,
        s.done().gathered(aur_keep, repo_keep).targets == s.aur + targets_of(aur_keep)
            + targets_of(repo_keep),
{
    assert(Seq::<Seq<char>>::empty() + s.aur =~= s.aur);
}

// ---- what the run is for ----

/// Every upgrade of the AUR is resolved and built: the package manager is left alone with
/// the rest exactly where everything is upgraded in one go and nothing of the AUR, neither
/// a target nor an upgrade, is wanted. Otherwise the run goes on to resolving.
pub proof fn law_upgrades_of_the_aur<F>(
    s: InstallView<F>,
    aur_keep: Seq<Seq<char>>,
    repo_keep: Seq<Seq<char>>,
    repo_skip: Seq<Seq<char>>,
)
    requires
        s.wf(),
        s.stage == Stage::Select,
    ensures
        ({
            let next = s.selected(aur_keep, repo_keep, repo_skip);
            &&& s.aur.len() > 0 || aur_keep.len() > 0 ==> next.stage == Stage::Resolve
            &&& !s.config.combined_upgrade ==> next.stage == Stage::Resolve
            &&& s.config.combined_upgrade && s.aur.len() == 0 && aur_keep.len() == 0 ==> next.stage
                == Stage::Pacman
            &&& next.aur == s.aur && next.repo == s.repo && next.given == s.given
            &&& next.flags == s.flags && next.actions == s.actions
        }),
{
    lemma_more_args(s.config.args, ignores(repo_skip), "u"@, "sysupgrade"@);
}

/// All that is wanted is resolved, and nothing else: the targets of the repositories that
/// are left, those of the AUR, and the upgrades that were kept, each once, in that order.
pub proof fn law_targets_gathered<F>(
    s: InstallView<F>,
    aur_keep: Seq<Seq<char>>,
    repo_keep: Seq<Seq<char>>,
    repo_skip: Seq<Seq<char>>,
)
    ensures
        ({
            let targets = s.selected(aur_keep, repo_keep, repo_skip).targets;
            let a = s.repo.len() as int;
            let b = a + s.aur.len();
            let c = b + aur_keep.len();
            &&& targets.len() == c + repo_keep.len()
            &&& targets.subrange(0, a) == s.repo
            &&& targets.subrange(a, b) == s.aur
            &&& forall|i: int|
                0 <= i < aur_keep.len() ==> targets[b + i] == target_of(#[trigger] aur_keep[i])
            &&& forall|i: int|
                0 <= i < repo_keep.len() ==> targets[c + i] == target_of(#[trigger] repo_keep[i])
        }),
{
    let targets = s.selected(aur_keep, repo_keep, repo_skip).targets;
    let a = s.repo.len() as int;
    let b = a + s.aur.len();
    assert(targets.subrange(0, a) =~= s.repo);
    assert(targets.subrange(a, b) =~= s.aur);
}

/// Of a target with more than two parts the first two count.
pub proof fn law_long_target(repo: Seq<char>, name: Seq<char>, rest: Seq<char>)
    requires
        !repo.contains('/'),
        !name.contains('/'),
    ensures
        target_of(repo + "/"@ + name + "/"@ + rest) == repo + "/"@ + name,
{
    reveal_strlit("/");
    assert("/"@ =~= seq!['/']);
    text::lemma_pieces_whole(name, '/');
    text::lemma_pieces_whole(repo, '/');
    text::lemma_pieces_concat(name, '/', rest);
    text::lemma_pieces_concat(repo, '/', name.push('/') + rest);
    text::lemma_pieces_some(rest, '/');
    assert(repo + "/"@ + name + "/"@ + rest =~= repo.push('/') + (name.push('/') + rest));
}

/// What is skipped is all that is ignored in addition, and no other setting changes.
pub proof fn law_only_skipped_is_ignored(config: ConfigView, skip: Seq<Seq<char>>)
    ensures
        ({
            let next = ignoring(config, skip);
            &&& next.args.args.len() == config.args.args.len() + skip.len()
            &&& next.globals.args.len() == config.globals.args.len() + skip.len()
            &&& forall|i: int|
                0 <= i < skip.len() ==> next.args.args[config.args.args.len() + i]
                    == next.globals.args[config.globals.args.len() + i]
                    && next.args.args[config.args.args.len() + i].key == "ignore"@
                    && next.args.args[config.args.args.len() + i].value == Some(#[trigger] skip[i])
            &&& next.args.args.take(config.args.args.len() as int) == config.args.args
            &&& next.globals.args.take(config.globals.args.len() as int) == config.globals.args
            &&& next.args.op == config.args.op && next.globals.op == config.globals.op
            &&& next.args.targets == config.args.targets && next.globals.targets
                == config.globals.targets
            &&& (ConfigView { args: config.args, globals: config.globals, ..next }) == config
        }),
{
    let next = ignoring(config, skip);
    assert(next.args.args.take(config.args.args.len() as int) =~= config.args.args);
    assert(next.globals.args.take(config.globals.args.len() as int) =~= config.globals.args);
}

/// The package manager deals with the repositories first exactly where that is not one
/// go with the AUR: it gets the targets of the repositories then, and refreshes or
/// upgrades as asked. In one go the databases are refreshed where that was asked for.
/// Where only the AUR is looked at neither happens.
pub proof fn law_repositories_first<F>(
    s: InstallView<F>,
    repo: Seq<Seq<char>>,
    aur: Seq<Seq<char>>,
)
    requires
        s.wf(),
        s.stage == Stage::Split,
    ensures
        ({
            let next = s.split(repo, aur);
            let upgrade = s.config.args.has_arg("u"@, "sysupgrade"@);
            let refresh = s.config.args.has_arg("y"@, "refresh"@);
            &&& next.repo == repo && next.aur == aur && next.config == s.config
            &&& next.stage == Stage::Early <==> s.config.mode != "aur"@
                && !s.config.combined_upgrade && (refresh || upgrade || repo.len() > 0)
            &&& next.stage == Stage::Refresh <==> s.config.mode != "aur"@
                && s.config.combined_upgrade && refresh
            &&& next.stage == Stage::Early || next.stage == Stage::Refresh || (if aur.len() > 0
                || upgrade {
                next.stage == Stage::Databases
            } else {
                next.stage == Stage::Done && next.code == 0 && next.farewell == Farewell::Silent
            })
        }),
{
}

/// After the repositories the run goes on exactly where the AUR has a target or
/// everything is upgraded; otherwise it is over, with success and without a word. What the
/// package manager got is not kept; after a refresh alone it is.
pub proof fn law_after_the_repositories<F>(s: InstallView<F>)
    requires
        s.wf(),
        s.stage == Stage::Early || s.stage == Stage::Refresh,
    ensures
        ({
            let next = s.done();
            let more = s.aur.len() > 0 || s.config.args.has_arg("u"@, "sysupgrade"@);
            &&& more ==> next.stage == Stage::Databases
            &&& !more ==> next.stage == Stage::Done && next.code == 0 && next.farewell
                == Farewell::Silent && next.failure is None
            &&& s.stage == Stage::Early ==> next.repo.len() == 0
            &&& s.stage == Stage::Refresh ==> next.repo == s.repo
            &&& next.aur == s.aur && next.config == s.config
        }),
{
}

/// Upgrades are looked for exactly where everything is upgraded: those of the AUR unless
/// only the repositories are looked at, and then the user selects. Without an upgrade the
/// targets are resolved as they are.
pub proof fn law_upgrades_looked_for<F>(s: InstallView<F>)
    requires
        s.wf(),
        s.stage == Stage::Databases || s.stage == Stage::Updates,
    ensures
        ({
            let next = s.done();
            let upgrade = s.config.args.has_arg("u"@, "sysupgrade"@);
            &&& s.stage == Stage::Updates ==> next.stage == Stage::Select
            &&& s.stage == Stage::Databases && upgrade && s.config.mode != "repo"@ ==> next.stage
                == Stage::Updates
            &&& s.stage == Stage::Databases && upgrade && s.config.mode == "repo"@ ==> next.stage
                == Stage::Select
            &&& s.stage == Stage::Databases && !upgrade && s.given.len() > 0 ==> next.stage
                == Stage::Resolve && next.targets == s.repo + s.aur
            &&& s.stage == Stage::Databases && !upgrade && s.given.len() == 0 ==> next.stage
                == Stage::Done && next.code == 1 && next.farewell == Farewell::NoTargets
            &&& next.config == s.config && next.repo == s.repo && next.aur == s.aur
        }),
{
    let none = Seq::<Seq<char>>::empty();
    assert(s.repo + s.aur + targets_of(none) + targets_of(none) =~= s.repo + s.aur);
}

/// Nothing is done with targets that are wanted twice or cannot be found. Otherwise
/// conflicts are looked for where there is something to build; what is only installed is
/// shown at once; and with neither the run is over, with success.
pub proof fn law_resolved<F>(s: InstallView<F>, actions: ActionsView)
    requires
        s.wf(),
        s.stage == Stage::Resolve,
    ensures
        ({
            let next = s.resolved(actions);
            let upgrade = s.config.args.has_arg("u"@, "sysupgrade"@);
            let bad = actions.duplicates.len() > 0 || actions.missing.len() > 0;
            &&& next.actions == actions && next.config == s.config
            &&& next.stage == Stage::Failed <==> bad
            &&& next.stage == Stage::Conflicts <==> !bad && actions.build.len() > 0
            &&& next.stage == Stage::Show <==> !bad && actions.build.len() == 0
                && actions.install.len() > 0
            &&& next.stage == Stage::Done <==> !bad && actions.build.len() == 0
                && actions.install.len() == 0
            &&& next.stage == Stage::Done ==> next.code == 0 && next.failure is None
            &&& next.stage == Stage::Done ==> (next.farewell == Farewell::NothingToDo <==> upgrade
                || s.aur.len() > 0)
            &&& next.stage == Stage::Done ==> next.farewell != Farewell::NoTargets
        }),
{
}

/// Conflicts stop the run exactly where the user would have to be asked and does not want
/// to be; otherwise what will be installed is shown.
pub proof fn law_conflicts_stop<F>(
    s: InstallView<F>,
    conflicts: Seq<ConflictView>,
    inner_conflicts: Seq<ConflictView>,
)
    requires
        s.wf(),
        s.stage == Stage::Conflicts,
    ensures
        ({
            let next = s.conflicts_found(conflicts, inner_conflicts);
            let some = conflicts.len() + inner_conflicts.len() > 0;
            &&& next.stage == Stage::Failed <==> some && !s.config.use_ask && s.config.no_confirm
            &&& next.stage != Stage::Failed ==> next.stage == Stage::Show
            &&& next.conflicts == conflicts && next.inner_conflicts == inner_conflicts
            &&& next.actions == s.actions && next.config == s.config
        }),
{
}

/// Whether a package of the bases is only needed for building.
pub open spec fn has_make(build: Seq<BuildBaseView>) -> bool {
    exists|i: int, k: int|
        0 <= i < build.len() && 0 <= k < build[i].pkgs.len() && (#[trigger] build[i].pkgs[k]).make
}

/// The packages that are removed afterwards are exactly those of the build that are only
/// needed for building, each by the name under which it is installed.
pub proof fn law_make_names(build: Seq<BuildBaseView>, name: Seq<char>)
    ensures
        make_names(package::build_pkgs(build)).contains(name) <==> exists|i: int, k: int|
            0 <= i < build.len() && 0 <= k < build[i].pkgs.len() && (#[trigger] build[i].pkgs[k]).make
                && build[i].pkgs[k].pkg.name == name,
        make_names(package::build_pkgs(build)).len() > 0 <==> has_make(build),
{
    let all = package::build_pkgs(build);
    let test = |pkg: BuildPackageView| pkg.make;
    let called = |pkg: BuildPackageView| pkg.pkg.name;
    text::lemma_filter_mapped(all, test, called, name);
    if make_names(all).contains(name) {
        let j = choose|j: int| 0 <= j < all.len() && test(#[trigger] all[j]) && called(all[j]) == name;
        lemma_place_of(build, j);
    }
    assert forall|i: int, k: int|
        0 <= i < build.len() && 0 <= k < build[i].pkgs.len() && (#[trigger] build[i].pkgs[k]).make
        implies make_names(all).contains(build[i].pkgs[k].pkg.name) by {
        let pkg = build[i].pkgs[k];
        package::law_build_pkgs(build, pkg);
        assert(build[i].pkgs.contains(pkg));
        let j = choose|j: int| 0 <= j < all.len() && all[j] == pkg;
        assert(test(all[j]) && called(all[j]) == pkg.pkg.name);
        text::lemma_filter_mapped(all, test, called, pkg.pkg.name);
    }
    if make_names(all).len() > 0 {
        let first = make_names(all)[0];
        assert(make_names(all).contains(first));
        text::lemma_filter_mapped(all, test, called, first);
        let j = choose|j: int| 0 <= j < all.len() && test(#[trigger] all[j]) && called(all[j]) == first;
        lemma_place_of(build, j);
    }
    if has_make(build) {
        let (i, k) = choose|i: int, k: int|
            0 <= i < build.len() && 0 <= k < build[i].pkgs.len() && (
            #[trigger] build[i].pkgs[k]).make;
        assert(make_names(all).contains(build[i].pkgs[k].pkg.name));
    }
}

/// Every package to build has its place in a base.
proof fn lemma_place_of(build: Seq<BuildBaseView>, j: int)
    requires
        0 <= j < package::build_pkgs(build).len(),
    ensures
        exists|i: int, k: int|
            0 <= i < build.len() && 0 <= k < build[i].pkgs.len() && #[trigger] build[i].pkgs[k]
                == package::build_pkgs(build)[j],
{
    let pkg = package::build_pkgs(build)[j];
    package::law_build_pkgs(build, pkg);
    assert(package::build_pkgs(build).contains(pkg));
    let i = choose|i: int| 0 <= i < build.len() && (#[trigger] build[i]).pkgs.contains(pkg);
    let k = choose|k: int| 0 <= k < build[i].pkgs.len() && build[i].pkgs[k] == pkg;
    assert(build[i].pkgs[k] == pkg);
}

/// The call that removes what was only needed for building removes exactly the packages
/// of the build that are, by their names, and keeps the options of every call.
pub proof fn law_remove_call<F>(s: InstallView<F>, name: Seq<char>)
    ensures
        ({
            let call = s.remove_call();
            let build = s.actions.build;
            &&& call.op == "remove"@
            &&& call.targets.contains(name) <==> exists|i: int, k: int|
                0 <= i < build.len() && 0 <= k < build[i].pkgs.len() && (
                #[trigger] build[i].pkgs[k]).make && build[i].pkgs[k].pkg.name == name
            &&& call.args.len() == s.config.globals.args.len() + 1
            &&& call.args.drop_last() == s.config.globals.args
            &&& call.args.last().key == "nocnfirm"@ && call.args.last().value is None
        }),
{
    law_make_names(s.actions.build, name);
    assert(s.remove_call().args.drop_last() =~= s.config.globals.args);
}

/// The packages to remove keep the order of the build: those of two runs of bases are
/// those of the first and then those of the second.
pub proof fn law_make_names_in_order(first: Seq<BuildBaseView>, second: Seq<BuildBaseView>)
    ensures
        make_names(package::build_pkgs(first + second)) == make_names(package::build_pkgs(first))
            + make_names(package::build_pkgs(second)),
{
    package::law_build_pkgs_in_order(first, second);
    text::lemma_filter_mapped_add(
        package::build_pkgs(first),
        package::build_pkgs(second),
        |pkg: BuildPackageView| pkg.make,
        |pkg: BuildPackageView| pkg.pkg.name,
    );
}

/// The user is asked about removing exactly where there is something to remove and the
/// settings say to ask. Without a question it is removed where the settings say yes and
/// there is something; with one, where the user says yes.
pub proof fn law_remove_decided<F>(s: InstallView<F>, yes: bool)
    requires
        s.wf(),
    ensures
        s.stage == Stage::Show ==> {
            let next = s.done();
            let some = has_make(s.actions.build);
            &&& next.stage == Stage::AskRemove <==> some && s.config.remove_make == "ask"@
            &&& next.stage != Stage::AskRemove ==> next.stage == Stage::Act && (next.remove_make
                <==> some && s.config.remove_make == "yes"@)
            &&& next.actions == s.actions && next.config == s.config
        },
        s.stage == Stage::AskRemove ==> {
            let next = s.answered(yes);
            &&& next.stage == Stage::Act && next.remove_make == yes
            &&& next.actions == s.actions && next.config == s.config
        },
{
    law_make_names(s.actions.build, Seq::empty());
    reveal_strlit("ask");
    reveal_strlit("yes");
    assert("ask"@[0] == 'a');
    assert("yes"@[0] == 'y');
}

/// Once everything was carried out, or was not, what was only needed for building is
/// removed where that was decided, and only then are directories cleaned: those of all
/// bases, one after the other from the first to the last, where that is wanted, and no
/// other. Then the run is over.
pub proof fn law_cleaning_up<F>(s: InstallView<F>, result: Result<i32, F>)
    requires
        s.wf(),
    ensures
        ({
            let wanted = s.config.clean_after && s.actions.build.len() > 0;
            let next = if s.stage == Stage::Act {
                s.acted(result)
            } else {
                s.done()
            };
            &&& s.stage == Stage::Act && s.remove_make ==> next.stage == Stage::RemoveMake
            &&& s.stage == Stage::Act && !s.remove_make || s.stage == Stage::RemoveMake ==> (
            if wanted {
                next.stage == Stage::Clean && next.at == 0
            } else {
                next.stage == Stage::Done
            })
            &&& s.stage == Stage::Clean ==> (if s.at + 1 < s.actions.build.len() {
                next.stage == Stage::Clean && next.at == s.at + 1
            } else {
                next.stage == Stage::Done
            })
            &&& s.settled() && s.stage != Stage::Done ==> next.code == s.code && next.failure
                == s.failure
            &&& s.stage == Stage::Act ==> match result {
                Ok(code) => next.code == code && next.failure is None,
                Err(failure) => next.failure == Some(failure),
            }
            &&& s.acting() && s.stage != Stage::Done ==> next.actions == s.actions && next.config
                == s.config && next.remove_make == s.remove_make && next.farewell == s.farewell
        }),
{
}

/// The result of the whole is the failure, where there is one, and the code otherwise;
/// nothing else changes when a run ends.
pub proof fn law_result<F>(s: InstallView<F>, code: i32, farewell: Farewell)
    ensures
        s.failure is None ==> s.result() == Ok::<i32, F>(s.code),
        s.failure matches Some(failure) ==> s.result() == Err::<i32, F>(failure),
        s.ended(code, farewell).stage == Stage::Done,
        s.ended(code, farewell).code == code && s.ended(code, farewell).farewell == farewell,
        (InstallView {
            code: s.code,
            farewell: s.farewell,
            stage: s.stage,
            ..s.ended(code, farewell)
        }) == s,
{
}

/// Where everything is left to the package manager, it gets all targets and what the user
/// asked for, but does not refresh again.
pub proof fn law_pacman_call<F>(s: InstallView<F>, arg: ArgView)
    ensures
        s.pacman_call().targets == s.targets,
        s.pacman_call().op == s.config.args.op,
        s.pacman_call().args.contains(arg) <==> s.config.args.args.contains(arg) && arg.key != "y"@,
        !s.config.args.has_arg("y"@, "y"@) ==> s.pacman_call().args == s.config.args.args,
{
    crate::args::law_without(s.config.args.with_targets(s.targets), "y"@, arg);
    assert(s.config.args.has_arg("y"@, "y"@) == s.config.args.with_targets(s.targets).has_arg(
        "y"@,
        "y"@,
    ));
}

/// Dependencies are resolved as the command line says: an option given once or twice
/// counts as such, the mode restricts where targets are looked for, and packages that
/// provide something are looked for where the settings allow it.
pub proof fn law_flags(config: ConfigView)
    ensures
        ({
            let flags = flags_of(config);
            &&& flags.needed <==> crate::args::twice(config.args, "needed"@, "needed"@)
            &&& flags.enable_downgrade <==> crate::args::twice(config.args, "u"@, "sysupgrade"@)
            &&& flags.no_dep_version <==> config.args.has_arg("d"@, "nodeps"@)
            &&& flags.no_deps <==> crate::args::twice(config.args, "d"@, "nodeps"@)
            &&& flags.no_deps ==> flags.no_dep_version
            &&& flags.aur_only <==> config.mode == "aur"@
            &&& flags.repo_only <==> config.mode == "repo"@
            &&& !(flags.aur_only && flags.repo_only)
            &&& flags.missing_provides <==> config.provides
            &&& flags.target_provides <==> config.provides && config.op != "yay"@
        }),
{
    crate::args::law_counted_twice(config.args, "needed"@, "needed"@);
    crate::args::law_counted_twice(config.args, "u"@, "sysupgrade"@);
    crate::args::law_counted_twice(config.args, "d"@, "nodeps"@);
    crate::args::law_has_arg_counts(config.args, "d"@, "nodeps"@);
    reveal_strlit("aur");
    reveal_strlit("repo");
    assert("aur"@.len() != "repo"@.len());
}

/// While targets are installed the operation is to sync them, everywhere; makepkg is told
/// not to look at dependencies exactly where the user said so; the options of the command
/// line and all other settings stay.
pub proof fn law_prepared(config: ConfigView, targets: Seq<Seq<char>>)
    ensures
        ({
            let next = prepared(config, targets);
            &&& next.op == "sync"@ && next.args.op == "sync"@ && next.globals.op == "sync"@
            &&& next.targets == targets && next.args.targets == targets
            &&& next.globals.targets == config.globals.targets
            &&& next.args.args == config.args.args && next.globals.args == config.globals.args
            &&& config.args.has_arg("d"@, "nodeps"@) ==> next.mflags.drop_last() == config.mflags
                && next.mflags.len() == config.mflags.len() + 1 && next.mflags.last() == "-d"@
            &&& !config.args.has_arg("d"@, "nodeps"@) ==> next.mflags == config.mflags
            &&& (ConfigView {
                op: config.op,
                args: config.args,
                globals: config.globals,
                targets: config.targets,
                mflags: config.mflags,
                ..next
            }) == config
        }),
{
    crate::args::law_has_arg_counts(config.args, "d"@, "nodeps"@);
    let next = prepared(config, targets);
    if config.args.has_arg("d"@, "nodeps"@) {
        assert(next.mflags.drop_last() =~= config.mflags);
    }
}

/// A run begins with the targets that were asked for and nothing else: with keeping the
/// user's rights where the settings say so, and with sorting the targets where they do not
/// or once that is done.
pub proof fn law_begins<F>(config: ConfigView, targets: Seq<Seq<char>>)
    ensures
        ({
            let s = start::<F>(config, targets);
            &&& s.stage == Stage::Sudo <==> config.sudo_loop
            &&& s.stage == Stage::Split <==> !config.sudo_loop
            &&& s.stage == Stage::Sudo ==> s.done().stage == Stage::Split
            &&& s.given == targets && s.done().given == targets
            &&& s.repo.len() == 0 && s.aur.len() == 0 && s.targets.len() == 0
            &&& s.actions.build.len() == 0 && s.actions.install.len() == 0
            &&& s.code == 0 && s.failure is None && !s.remove_make
            &&& s.farewell == Farewell::Silent
        }),
{
}

/// There is a word at the end exactly where there was nothing to do or nothing was asked
/// for, and not the same.
pub proof fn law_last_word<F>(s: InstallView<F>)
    requires
        s.stage == Stage::Done,
    ensures
        s.farewell == Farewell::Silent <==> s.notice() is None,
        s.farewell == Farewell::NothingToDo ==> s.notice() == Some(" there is nothing to do"@),
        s.farewell == Farewell::NoTargets ==> s.notice() == Some("no targets"@),
{
}

/// Where the package manager deals with the repositories first it gets exactly their
/// targets, and otherwise what the user asked for.
pub proof fn law_early_call<F>(s: InstallView<F>)
    ensures
        s.early_call().targets == s.repo,
        s.early_call().op == s.config.args.op,
        s.early_call().args == s.config.args.args,
{
}

/// The directory that is cleaned is that of the base whose turn it is: the base that its
/// packages belong to, whatever they are called.
pub proof fn law_clean_base<F>(s: InstallView<F>)
    requires
        s.wf(),
        s.stage == Stage::Clean,
    ensures
        s.at < s.actions.build.len(),
        s.clean_base() == s.actions.build[s.at as int].pkgs[0].pkg.package_base,
{
}

} // verus!

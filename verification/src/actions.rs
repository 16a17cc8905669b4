//! Looking over what resolving the targets came to, and asking the user about it.
use vstd::prelude::*;

use crate::config::Config;
use crate::config::ConfigView;
use crate::error::Error;
use crate::error::ErrorView;
use crate::package;
use crate::package::Actions;
use crate::package::ActionsView;
use crate::package::BuildPackage;
use crate::package::BuildPackageView;
use crate::package::Conflict;
use crate::package::ConflictView;
use crate::package::Conflicting;
use crate::package::ConflictingView;
use crate::package::Missing;
use crate::package::MissingView;
use crate::package::RepoPackageView;
use crate::style;
use crate::style::Colors;
use crate::style::Listing;
use crate::style::ListingView;
use crate::style::Style;
use crate::text;

verus! {

// ---- what is missing ----

/// A dependency that nothing satisfies, and how it came up.
pub open spec fn missing_line(color: Colors, missing: MissingView) -> Seq<char> {
    let stack = if missing.stack.len() == 0 {
        "target"@
    } else {
        text::joined(missing.stack, " -> "@)
    };
    "\n    "@ + style::painted(color.error, missing.dep) + " ("@ + stack + ")"@
}

/// The dependencies that nothing satisfies, one after the other.
pub open spec fn missing_lines(color: Colors, missing: Seq<MissingView>) -> Seq<char>
    decreases missing.len(),
{
    if missing.len() == 0 {
        Seq::empty()
    } else {
        missing_lines(color, missing.drop_last()) + missing_line(color, missing.last())
    }
}

/// The message about the dependencies that nothing satisfies.
pub open spec fn missing_text(color: Colors, missing: Seq<MissingView>) -> Seq<char> {
    "could not find all required packages:"@ + missing_lines(color, missing)
}

fn write_missing(color: Colors, missing: &Missing) -> (r: String)
    ensures
        r@ == missing_line(color, missing@),
{
    let stack = if missing.stack.len() == 0 {
        "target".to_owned()
    } else {
        assert(text::views(missing.stack@).subrange(0, missing.stack@.len() as int)
            =~= text::views(missing.stack@));
        text::join(&missing.stack, 0, missing.stack.len(), " -> ")
    };
    let mut out = "\n    ".to_owned();
    out.append(style::paint(color.error, missing.dep.as_str()).as_str());
    out.append(" (");
    out.append(stack.as_str());
    out.append(")");
    out
}

/// What stops the actions from being carried out: a package is wanted twice, or a
/// dependency cannot be found.
pub open spec fn obstacle(config: ConfigView, actions: ActionsView) -> Option<ErrorView> {
    if actions.duplicates.len() > 0 {
        Some(ErrorView::DuplicatePackages(actions.duplicates))
    } else if actions.missing.len() > 0 {
        Some(ErrorView::MissingPackages(missing_text(config.color, actions.missing)))
    } else {
        None
    }
}

/// Looks for what stops the actions from being carried out. Where nothing does, says
/// whether there is something to build, so that conflicts have to be looked for.
pub fn check_actions(config: &Config, actions: &Actions) -> (r: Result<bool, Error>)
    ensures
        match r {
            Ok(build) => obstacle(config@, actions@) is None && build == (actions@.build.len() > 0),
            Err(e) => obstacle(config@, actions@) == Some(e@),
        },
{
    if actions.duplicates.len() > 0 {
        return Err(Error::DuplicatePackages(text::copy_texts(&actions.duplicates)));
    }
    if actions.missing.len() > 0 {
        let ghost all = actions@.missing;
        let mut out = "could not find all required packages:".to_owned();
        let ghost head = out@;
        assert(all.take(0) =~= Seq::<MissingView>::empty());
        assert(out@ =~= head + missing_lines(config@.color, all.take(0)));
        for i in 0..actions.missing.len()
            invariant
                all == actions@.missing,
                out@ == head + missing_lines(config@.color, all.take(i as int)),
        {
            proof {
                text::lemma_take_push(all, i as int);
            }
            out.append(write_missing(config.color, &actions.missing[i]).as_str());
            assert(out@ =~= head + missing_lines(config@.color, all.take(i + 1)));
        }
        assert(all.take(actions.missing@.len() as int) =~= all);
        return Err(Error::MissingPackages(out));
    }
    Ok(actions.build.len() > 0)
}

// ---- conflicts ----

/// A package that another conflicts with.
pub open spec fn conflicting_text(conflicting: ConflictingView) -> Seq<char> {
    match conflicting.conflict {
        Some(conflict) => conflicting.pkg + "  "@ + " ("@ + conflict + ")"@,
        None => conflicting.pkg + "  "@,
    }
}

/// The packages that another conflicts with, one after the other.
pub open spec fn conflicting_texts(conflicting: Seq<ConflictingView>) -> Seq<char>
    decreases conflicting.len(),
{
    if conflicting.len() == 0 {
        Seq::empty()
    } else {
        conflicting_texts(conflicting.drop_last()) + conflicting_text(conflicting.last())
    }
}

/// The line about a package's conflicts.
pub open spec fn conflict_line(conflict: ConflictView) -> Seq<char> {
    "    "@ + conflict.pkg + ": "@ + conflicting_texts(conflict.conflicting) + "\n"@
}

/// The lines about some packages' conflicts.
pub open spec fn conflict_lines(conflicts: Seq<ConflictView>) -> Seq<char>
    decreases conflicts.len(),
{
    if conflicts.len() == 0 {
        Seq::empty()
    } else {
        conflict_lines(conflicts.drop_last()) + conflict_line(conflicts.last())
    }
}

/// The paragraph about some packages' conflicts; there is none without conflicts.
pub open spec fn conflict_report(
    color: Colors,
    title: Seq<char>,
    conflicts: Seq<ConflictView>,
) -> Seq<char> {
    if conflicts.len() == 0 {
        Seq::empty()
    } else {
        style::heading(color.error, color.bold, title) + "\n"@ + conflict_lines(conflicts) + "\n"@
    }
}

/// The lines about targets that are up to date.
pub open spec fn unneeded_lines(unneeded: Seq<Seq<char>>) -> Seq<char>
    decreases unneeded.len(),
{
    if unneeded.len() == 0 {
        Seq::empty()
    } else {
        unneeded_lines(unneeded.drop_last()) + (unneeded.last() + " is up to date -- skipping\n"@)
    }
}

/// Whether the user will be asked about conflicts.
pub open spec fn manual(
    config: ConfigView,
    conflicts: Seq<ConflictView>,
    inner_conflicts: Seq<ConflictView>,
) -> bool {
    (conflicts.len() > 0 || inner_conflicts.len() > 0) && !config.use_ask
}

/// Whether the actions cannot be carried out because the user would be asked and does
/// not want to be.
pub open spec fn deadlocked(
    config: ConfigView,
    conflicts: Seq<ConflictView>,
    inner_conflicts: Seq<ConflictView>,
) -> bool {
    manual(config, conflicts, inner_conflicts) && config.no_confirm
}

/// What is told about conflicts and about targets that are up to date.
pub open spec fn conflict_text(
    config: ConfigView,
    actions: ActionsView,
    conflicts: Seq<ConflictView>,
    inner_conflicts: Seq<ConflictView>,
) -> Seq<char> {
    let color = config.color;
    let found = conflict_report(color, "Inner conflicts found:"@, inner_conflicts)
        + conflict_report(color, "Conflicts found:"@, conflicts);
    let warned = if manual(config, conflicts, inner_conflicts) {
        found + style::heading(
            color.warning,
            color.bold,
            "Conflicting packages will have to be confirmed manually"@,
        ) + "\n"@
    } else {
        found
    };
    if deadlocked(config, conflicts, inner_conflicts) {
        warned
    } else {
        warned + unneeded_lines(actions.unneeded)
    }
}

fn write_conflicting(conflicting: &Vec<Conflicting>) -> (r: String)
    ensures
        r@ == conflicting_texts(text::views(conflicting@)),
{
    let ghost all = text::views(conflicting@);
    let mut out = String::new();
    assert(all.take(0) =~= Seq::<ConflictingView>::empty());
    for i in 0..conflicting.len()
        invariant
            all == text::views(conflicting@),
            out@ == conflicting_texts(all.take(i as int)),
    {
        proof {
            text::lemma_take_push(all, i as int);
        }
        let ghost before = out@;
        out.append(conflicting[i].pkg.as_str());
        out.append("  ");
        if let Some(conflict) = &conflicting[i].conflict {
            out.append(" (");
            out.append(conflict.as_str());
            out.append(")");
        }
        assert(out@ =~= before + conflicting_text(all[i as int]));
    }
    assert(all.take(conflicting@.len() as int) =~= all);
    out
}

fn write_report(color: Colors, title: &str, conflicts: &Vec<Conflict>) -> (r: String)
    ensures
        r@ == conflict_report(color, title@, text::views(conflicts@)),
{
    if conflicts.len() == 0 {
        return String::new();
    }
    let ghost all = text::views(conflicts@);
    let mut out = style::heading_text(color.error, color.bold, title);
    out.append("\n");
    let ghost head = out@;
    assert(all.take(0) =~= Seq::<ConflictView>::empty());
    assert(out@ =~= head + conflict_lines(all.take(0)));
    for i in 0..conflicts.len()
        invariant
            all == text::views(conflicts@),
            out@ == head + conflict_lines(all.take(i as int)),
    {
        proof {
            text::lemma_take_push(all, i as int);
        }
        out.append("    ");
        out.append(conflicts[i].pkg.as_str());
        out.append(": ");
        out.append(write_conflicting(&conflicts[i].conflicting).as_str());
        out.append("\n");
        assert(out@ =~= head + conflict_lines(all.take(i + 1)));
    }
    assert(all.take(conflicts@.len() as int) =~= all);
    out.append("\n");
    out
}

/// Reports the conflicts and the targets that are up to date. Fails where there are
/// conflicts that only the user can decide and the user does not want to be asked.
pub fn check_conflicts(
    config: &Config,
    actions: &Actions,
    conflicts: &Vec<Conflict>,
    inner_conflicts: &Vec<Conflict>,
) -> (r: (String, Result<(), Error>))
    ensures
        r.0@ == conflict_text(
            config@,
            actions@,
            text::views(conflicts@),
            text::views(inner_conflicts@),
        ),
        match r.1 {
            Ok(()) => !deadlocked(
                config@,
                text::views(conflicts@),
                text::views(inner_conflicts@),
            ),
            Err(e) => e@ == ErrorView::Conflicts && deadlocked(
                config@,
                text::views(conflicts@),
                text::views(inner_conflicts@),
            ),
        },
{
    let c = config.color;
    let mut out = write_report(c, "Inner conflicts found:", inner_conflicts);
    out.append(write_report(c, "Conflicts found:", conflicts).as_str());
    if (conflicts.len() > 0 || inner_conflicts.len() > 0) && !config.use_ask {
        out.append(
            style::heading_text(
                c.warning,
                c.bold,
                "Conflicting packages will have to be confirmed manually",
            ).as_str(),
        );
        out.append("\n");
        if config.no_confirm {
            return (out, Err(Error::Conflicts));
        }
    }
    let ghost all = actions@.unneeded;
    let ghost head = out@;
    assert(all.take(0) =~= Seq::<Seq<char>>::empty());
    assert(out@ =~= head + unneeded_lines(all.take(0)));
    for i in 0..actions.unneeded.len()
        invariant
            all == actions@.unneeded,
            out@ == head + unneeded_lines(all.take(i as int)),
    {
        proof {
            text::lemma_take_push(all, i as int);
        }
        out.append(actions.unneeded[i].as_str());
        out.append(" is up to date -- skipping\n");
        assert(out@ =~= head + unneeded_lines(all.take(i + 1)));
    }
    assert(all.take(actions.unneeded@.len() as int) =~= all);
    (out, Ok(()))
}

/// The names of the packages with conflicts: those that conflict with what is
/// installed, then those that conflict with each other.
pub open spec fn names_in_conflict(
    conflicts: Seq<ConflictView>,
    inner_conflicts: Seq<ConflictView>,
) -> Seq<Seq<char>> {
    (conflicts + inner_conflicts).map_values(|conflict: ConflictView| conflict.pkg)
}

/// Lists the names of the packages with conflicts.
pub fn conflict_names(conflicts: &Vec<Conflict>, inner_conflicts: &Vec<Conflict>) -> (r: Vec<
    String,
>)
    ensures
        text::views(r@) == names_in_conflict(
            text::views(conflicts@),
            text::views(inner_conflicts@),
        ),
{
    let ghost all = names_in_conflict(text::views(conflicts@), text::views(inner_conflicts@));
    let mut out: Vec<String> = Vec::new();
    assert(text::views(out@) =~= all.take(0));
    for i in 0..conflicts.len()
        invariant
            all == names_in_conflict(text::views(conflicts@), text::views(inner_conflicts@)),
            text::views(out@) == all.take(i as int),
    {
        let name = conflicts[i].pkg.clone();
        proof {
            text::lemma_views_push(out@, name);
            text::lemma_take_push(all, i as int);
        }
        out.push(name);
    }
    for i in 0..inner_conflicts.len()
        invariant
            all == names_in_conflict(text::views(conflicts@), text::views(inner_conflicts@)),
            text::views(out@) == all.take(conflicts@.len() + i),
    {
        let name = inner_conflicts[i].pkg.clone();
        proof {
            text::lemma_views_push(out@, name);
            text::lemma_take_push(all, conflicts@.len() + i);
        }
        out.push(name);
    }
    assert(all.take(all.len() as int) =~= all);
    out
}

/// Nobody is asked about conflicts beforehand, and nothing fails, where there are none.
pub proof fn law_no_conflicts(config: ConfigView, actions: ActionsView)
    ensures
        !manual(config, Seq::empty(), Seq::empty()),
        !deadlocked(config, Seq::empty(), Seq::empty()),
        conflict_text(config, actions, Seq::empty(), Seq::empty()) == unneeded_lines(
            actions.unneeded,
        ),
        names_in_conflict(Seq::empty(), Seq::empty()).len() == 0,
{
    assert(conflict_text(config, actions, Seq::empty(), Seq::empty()) =~= unneeded_lines(
        actions.unneeded,
    ));
}

// ---- what will be installed ----

/// The packages from the repositories, those that are only needed for building or the
/// others.
pub open spec fn repo_items(install: Seq<RepoPackageView>, make: bool) -> Seq<Seq<char>> {
    install.filter(|pkg: RepoPackageView| pkg.make == make).map_values(
        |pkg: RepoPackageView| pkg.name + "-"@ + pkg.version,
    )
}

/// The packages to build, those that are only needed for building or the others.
pub open spec fn build_items(build: Seq<BuildPackageView>, make: bool) -> Seq<Seq<char>> {
    build.filter(|pkg: BuildPackageView| pkg.make == make).map_values(
        |pkg: BuildPackageView| pkg.pkg.name + "-"@ + pkg.pkg.version,
    )
}

/// The list of some packages; there is none without packages.
pub open spec fn install_listing(
    config: ConfigView,
    label: Seq<char>,
    start: nat,
    items: Seq<Seq<char>>,
) -> Option<ListingView> {
    if items.len() == 0 {
        None
    } else {
        let n = text::decimal(items.len());
        Some(
            ListingView {
                head: style::painted(config.color.bold, label + " ("@ + n + ") "@),
                style: style::plain(),
                start: start + n.len(),
                indent: 4,
                cols: config.cols,
                sep: "  "@,
                items,
            },
        )
    }
}

/// The lists of what will be installed.
pub open spec fn install_listings(config: ConfigView, actions: ActionsView) -> Seq<ListingView> {
    style::present(
        seq![
            install_listing(config, "Repo"@, 17, repo_items(actions.install, false)),
            install_listing(config, "Repo Make"@, 22, repo_items(actions.install, true)),
            install_listing(config, "Aur"@, 16, build_items(actions.build_pkgs(), false)),
            install_listing(config, "Aur Make"@, 16, build_items(actions.build_pkgs(), true)),
        ],
    )
}

fn titled(name: &str, version: &str) -> (r: String)
    ensures
        r@ == name@ + "-"@ + version@,
{
    let mut out = name.to_owned();
    out.append("-");
    out.append(version);
    out
}

fn repo_list(actions: &Actions, make: bool) -> (r: Vec<String>)
    ensures
        text::views(r@) == repo_items(actions@.install, make),
{
    let ghost all = actions@.install;
    let ghost test = |pkg: RepoPackageView| pkg.make == make;
    let ghost show = |pkg: RepoPackageView| pkg.name + "-"@ + pkg.version;
    let mut out: Vec<String> = Vec::new();
    proof {
        reveal(Seq::filter);
    }
    assert(all.take(0) =~= Seq::<RepoPackageView>::empty());
    assert(text::views(out@) =~= all.take(0).filter(test).map_values(show));
    for i in 0..actions.install.len()
        invariant
            all == actions@.install,
            test == (|pkg: RepoPackageView| pkg.make == make),
            show == (|pkg: RepoPackageView| pkg.name + "-"@ + pkg.version),
            text::views(out@) == all.take(i as int).filter(test).map_values(show),
    {
        let pkg = &actions.install[i];
        proof {
            text::lemma_take_push(all, i as int);
            text::lemma_filter_push(all.take(i as int), all[i as int], test);
        }
        if pkg.make == make {
            let item = titled(pkg.name.as_str(), pkg.version.as_str());
            proof {
                text::lemma_views_push(out@, item);
                let before = all.take(i as int).filter(test);
                assert(before.push(pkg@).map_values(show) =~= before.map_values(show).push(item@));
            }
            out.push(item);
        }
    }
    assert(all.take(actions.install@.len() as int) =~= all);
    out
}

fn build_list(pkgs: &Vec<&BuildPackage>, make: bool) -> (r: Vec<String>)
    ensures
        text::views(r@) == build_items(package::borrowed(pkgs@), make),
{
    let ghost all = package::borrowed(pkgs@);
    let ghost test = |pkg: BuildPackageView| pkg.make == make;
    let ghost show = |pkg: BuildPackageView| pkg.pkg.name + "-"@ + pkg.pkg.version;
    let mut out: Vec<String> = Vec::new();
    proof {
        reveal(Seq::filter);
    }
    assert(all.take(0) =~= Seq::<BuildPackageView>::empty());
    assert(text::views(out@) =~= all.take(0).filter(test).map_values(show));
    for i in 0..pkgs.len()
        invariant
            all == package::borrowed(pkgs@),
            test == (|pkg: BuildPackageView| pkg.make == make),
            show == (|pkg: BuildPackageView| pkg.pkg.name + "-"@ + pkg.pkg.version),
            text::views(out@) == all.take(i as int).filter(test).map_values(show),
    {
        let pkg = pkgs[i];
        proof {
            text::lemma_take_push(all, i as int);
            text::lemma_filter_push(all.take(i as int), all[i as int], test);
        }
        assert(all[i as int] == pkg@);
        if pkg.make == make {
            let item = titled(pkg.pkg.name.as_str(), pkg.pkg.version.as_str());
            proof {
                text::lemma_views_push(out@, item);
                let before = all.take(i as int).filter(test);
                assert(before.push(pkg@).map_values(show) =~= before.map_values(show).push(item@));
            }
            out.push(item);
        }
    }
    assert(all.take(pkgs@.len() as int) =~= all);
    out
}

fn list_installs(config: &Config, label: &str, start: usize, items: Vec<String>) -> (r: Option<
    Listing,
>)
    requires
        start <= 100,
    ensures
        text::option_view(r) == install_listing(
            config@,
            label@,
            start as nat,
            text::views(items@),
        ),
{
    if items.len() == 0 {
        return None;
    }
    let n = text::length_text(items.len());
    proof {
        text::lemma_length_digits(items.len());
    }
    let mut head = label.to_owned();
    head.append(" (");
    head.append(n.as_str());
    head.append(") ");
    Some(
        Listing {
            head: style::paint(config.color.bold, head.as_str()),
            style: Style::new(),
            start: start + n.as_str().unicode_len(),
            indent: 4,
            cols: config.cols,
            sep: "  ".to_owned(),
            items,
        },
    )
}

/// Lists what will be installed: packages from the repositories and packages to build,
/// each with those that are only needed for building apart.
pub fn print_install(config: &Config, actions: &Actions) -> (r: Vec<Listing>)
    ensures
        text::views(r@) == install_listings(config@, actions@),
{
    let pkgs = actions.build_pkgs();
    let ghost lists = seq![
        install_listing(config@, "Repo"@, 17, repo_items(actions@.install, false)),
        install_listing(config@, "Repo Make"@, 22, repo_items(actions@.install, true)),
        install_listing(config@, "Aur"@, 16, build_items(actions@.build_pkgs(), false)),
        install_listing(config@, "Aur Make"@, 16, build_items(actions@.build_pkgs(), true)),
    ];
    let mut out: Vec<Listing> = Vec::new();
    proof {
        style::lemma_present_push(lists, 0);
        style::lemma_present_push(lists, 1);
        style::lemma_present_push(lists, 2);
        style::lemma_present_push(lists, 3);
        assert(lists.take(4) =~= lists);
    }
    assert(text::views(out@) =~= style::present(lists.take(0)));
    style::push_some(&mut out, list_installs(config, "Repo", 17, repo_list(actions, false)));
    assert(text::views(out@) =~= style::present(lists.take(1)));
    style::push_some(&mut out, list_installs(config, "Repo Make", 22, repo_list(actions, true)));
    assert(text::views(out@) =~= style::present(lists.take(2)));
    style::push_some(&mut out, list_installs(config, "Aur", 16, build_list(&pkgs, false)));
    assert(text::views(out@) =~= style::present(lists.take(3)));
    style::push_some(&mut out, list_installs(config, "Aur Make", 16, build_list(&pkgs, true)));
    assert(text::views(out@) =~= style::present(lists.take(4)));
    out
}

/// Every package is listed once: as many items as packages.
pub proof fn law_all_listed(actions: ActionsView)
    ensures
        repo_items(actions.install, false).len() + repo_items(actions.install, true).len()
            == actions.install.len(),
        build_items(actions.build_pkgs(), false).len() + build_items(
            actions.build_pkgs(),
            true,
        ).len() == actions.build_pkgs().len(),
{
    let repo_make = |pkg: RepoPackageView| pkg.make == true;
    let repo_other = |pkg: RepoPackageView| pkg.make == false;
    lemma_filter_split(actions.install, repo_other, repo_make);
    let build_make = |pkg: BuildPackageView| pkg.make == true;
    let build_other = |pkg: BuildPackageView| pkg.make == false;
    lemma_filter_split(actions.build_pkgs(), build_other, build_make);
}

proof fn lemma_filter_split<T>(
    items: Seq<T>,
    test: spec_fn(T) -> bool,
    other: spec_fn(T) -> bool,
)
    requires
        forall|item: T| #[trigger] test(item) == !other(item),
    ensures
        items.filter(test).len() + items.filter(other).len() == items.len(),
    decreases items.len(),
{
    reveal(Seq::filter);
    if items.len() > 0 {
        lemma_filter_split(items.drop_last(), test, other);
        assert(items =~= items.drop_last().push(items.last()));
        text::lemma_filter_push(items.drop_last(), items.last(), test);
        text::lemma_filter_push(items.drop_last(), items.last(), other);
    }
}

/// What was resolved cannot be carried out exactly where a package is wanted twice or one
/// cannot be found. Packages that are wanted twice are told first, all of them.
pub proof fn law_obstacle(config: ConfigView, actions: ActionsView)
    ensures
        obstacle(config, actions) is None <==> actions.duplicates.len() == 0
            && actions.missing.len() == 0,
        actions.duplicates.len() > 0 ==> obstacle(config, actions) == Some(
            ErrorView::DuplicatePackages(actions.duplicates),
        ),
        actions.duplicates.len() == 0 && actions.missing.len() > 0 ==> obstacle(config, actions)
            == Some(ErrorView::MissingPackages(missing_text(config.color, actions.missing))),
{
}

/// What cannot be found is told in order, each with the packages that led to it, or as a
/// target where none did.
pub proof fn law_missing_told(color: Colors, first: Seq<MissingView>, second: Seq<MissingView>)
    ensures
        missing_lines(color, first + second) == missing_lines(color, first) + missing_lines(
            color,
            second,
        ),
        second.len() == 1 && second[0].stack.len() == 0 ==> missing_lines(color, second)
            == "\n    "@ + style::painted(color.error, second[0].dep) + " (target)"@,
        second.len() == 1 && second[0].stack.len() == 1 ==> missing_lines(color, second)
            == "\n    "@ + style::painted(color.error, second[0].dep) + " ("@ + second[0].stack[0]
            + ")"@,
    decreases second.len(),
{
    if second.len() == 0 {
        assert(first + second =~= first);
        assert(missing_lines(color, first) + missing_lines(color, second) =~= missing_lines(
            color,
            first,
        ));
    } else {
        law_missing_told(color, first, second.drop_last());
        assert((first + second).drop_last() =~= first + second.drop_last());
        assert(missing_lines(color, first + second) =~= missing_lines(color, first)
            + missing_lines(color, second));
    }
    if second.len() == 1 {
        let none = Seq::<char>::empty();
        assert(missing_lines(color, second) =~= missing_line(color, second[0]));
        if second[0].stack.len() == 0 {
            reveal_strlit(" (");
            reveal_strlit("target");
            reveal_strlit(")");
            reveal_strlit(" (target)");
            assert(" ("@ + "target"@ + ")"@ =~= " (target)"@);
            assert(missing_line(color, second[0]) =~= "\n    "@ + style::painted(
                color.error,
                second[0].dep,
            ) + " (target)"@);
        }
    }
}

/// The user has to decide about conflicts exactly where there are some and they are not
/// answered beforehand; that is a failure exactly where nobody may be asked.
pub proof fn law_conflicts_decided(
    config: ConfigView,
    conflicts: Seq<ConflictView>,
    inner_conflicts: Seq<ConflictView>,
)
    ensures
        manual(config, conflicts, inner_conflicts) <==> conflicts.len() + inner_conflicts.len() > 0
            && !config.use_ask,
        deadlocked(config, conflicts, inner_conflicts) <==> conflicts.len() + inner_conflicts.len()
            > 0 && !config.use_ask && config.no_confirm,
{
}

/// A package counts as being in a conflict exactly where one of its conflicts was found,
/// with what is installed or with what is to be.
pub proof fn law_names_in_conflict(
    conflicts: Seq<ConflictView>,
    inner_conflicts: Seq<ConflictView>,
    name: Seq<char>,
)
    ensures
        names_in_conflict(conflicts, inner_conflicts).contains(name) <==> (exists|i: int|
            0 <= i < conflicts.len() && (#[trigger] conflicts[i]).pkg == name) || (exists|i: int|
            0 <= i < inner_conflicts.len() && (#[trigger] inner_conflicts[i]).pkg == name),
        names_in_conflict(conflicts, inner_conflicts).len() == conflicts.len()
            + inner_conflicts.len(),
{
    let names = names_in_conflict(conflicts, inner_conflicts);
    let n = conflicts.len() as int;
    if names.contains(name) {
        let k = choose|k: int| 0 <= k < names.len() && names[k] == name;
        if k < n {
            assert(conflicts[k].pkg == name);
        } else {
            assert(inner_conflicts[k - n].pkg == name);
        }
    }
    if exists|i: int| 0 <= i < conflicts.len() && (#[trigger] conflicts[i]).pkg == name {
        let i = choose|i: int| 0 <= i < conflicts.len() && (#[trigger] conflicts[i]).pkg == name;
        assert(names[i] == name);
    }
    if exists|i: int| 0 <= i < inner_conflicts.len() && (#[trigger] inner_conflicts[i]).pkg == name {
        let i = choose|i: int|
            0 <= i < inner_conflicts.len() && (#[trigger] inner_conflicts[i]).pkg == name;
        assert(names[n + i] == name);
    }
}

/// What is told about conflicts begins with those among the packages themselves, then come
/// those with what is installed; each kind is told only where there is one. Then the user is
/// warned where there is something to decide. The targets that are up to date come last,
/// unless it ends in failure.
pub proof fn law_conflict_text(
    config: ConfigView,
    actions: ActionsView,
    conflicts: Seq<ConflictView>,
    inner_conflicts: Seq<ConflictView>,
)
    ensures
        ({
            let told = conflict_text(config, actions, conflicts, inner_conflicts);
            let inner = conflict_report(config.color, "Inner conflicts found:"@, inner_conflicts);
            let outer = conflict_report(config.color, "Conflicts found:"@, conflicts);
            let lines = unneeded_lines(actions.unneeded);
            let stopped = deadlocked(config, conflicts, inner_conflicts);
            &&& inner.len() == 0 <==> inner_conflicts.len() == 0
            &&& outer.len() == 0 <==> conflicts.len() == 0
            &&& (inner + outer).is_prefix_of(told)
            &&& !stopped ==> told.len() >= lines.len() && told.skip(told.len() - lines.len()) == lines
            &&& !manual(config, conflicts, inner_conflicts) ==> told == inner + outer + lines
            &&& manual(config, conflicts, inner_conflicts) ==> (inner + outer + style::heading(
                config.color.warning,
                config.color.bold,
                "Conflicting packages will have to be confirmed manually"@,
            ) + "\n"@).is_prefix_of(told)
            &&& stopped ==> told == conflict_text(
                config,
                ActionsView { unneeded: Seq::empty(), ..actions },
                conflicts,
                inner_conflicts,
            )
        }),
{
    reveal_strlit("\n");
    let told = conflict_text(config, actions, conflicts, inner_conflicts);
    let inner = conflict_report(config.color, "Inner conflicts found:"@, inner_conflicts);
    let outer = conflict_report(config.color, "Conflicts found:"@, conflicts);
    let lines = unneeded_lines(actions.unneeded);
    assert(told.take((inner + outer).len() as int) =~= inner + outer);
    if manual(config, conflicts, inner_conflicts) {
        let warned = inner + outer + style::heading(
            config.color.warning,
            config.color.bold,
            "Conflicting packages will have to be confirmed manually"@,
        ) + "\n"@;
        assert(told.take(warned.len() as int) =~= warned);
    }
    if !deadlocked(config, conflicts, inner_conflicts) {
        assert(told.skip(told.len() - lines.len()) =~= lines);
    }
}

/// What is told about conflicts is told package by package, and about each with all that it
/// conflicts with; the lines about targets that are up to date come target by target.
pub proof fn law_told_one_by_one(
    conflicts: (Seq<ConflictView>, Seq<ConflictView>),
    conflicting: (Seq<ConflictingView>, Seq<ConflictingView>),
    unneeded: (Seq<Seq<char>>, Seq<Seq<char>>),
)
    ensures
        conflict_lines(conflicts.0 + conflicts.1) == conflict_lines(conflicts.0) + conflict_lines(
            conflicts.1,
        ),
        conflicting_texts(conflicting.0 + conflicting.1) == conflicting_texts(conflicting.0)
            + conflicting_texts(conflicting.1),
        unneeded_lines(unneeded.0 + unneeded.1) == unneeded_lines(unneeded.0) + unneeded_lines(
            unneeded.1,
        ),
    decreases conflicts.1.len() + conflicting.1.len() + unneeded.1.len(),
{
    if conflicts.1.len() > 0 {
        let init = conflicts.1.drop_last();
        law_told_one_by_one((conflicts.0, init), conflicting, unneeded);
        assert((conflicts.0 + conflicts.1).drop_last() =~= conflicts.0 + init);
        assert(conflict_lines(conflicts.0 + conflicts.1) =~= conflict_lines(conflicts.0)
            + conflict_lines(conflicts.1));
    } else {
        assert(conflicts.0 + conflicts.1 =~= conflicts.0);
        assert(conflict_lines(conflicts.0) + conflict_lines(conflicts.1) =~= conflict_lines(
            conflicts.0,
        ));
    }
    if conflicting.1.len() > 0 {
        let init = conflicting.1.drop_last();
        law_told_one_by_one(conflicts, (conflicting.0, init), unneeded);
        assert((conflicting.0 + conflicting.1).drop_last() =~= conflicting.0 + init);
        assert(conflicting_texts(conflicting.0 + conflicting.1) =~= conflicting_texts(
            conflicting.0,
        ) + conflicting_texts(conflicting.1));
    } else {
        assert(conflicting.0 + conflicting.1 =~= conflicting.0);
        assert(conflicting_texts(conflicting.0) + conflicting_texts(conflicting.1)
            =~= conflicting_texts(conflicting.0));
    }
    if unneeded.1.len() > 0 {
        let init = unneeded.1.drop_last();
        law_told_one_by_one(conflicts, conflicting, (unneeded.0, init));
        assert((unneeded.0 + unneeded.1).drop_last() =~= unneeded.0 + init);
        assert(unneeded_lines(unneeded.0 + unneeded.1) =~= unneeded_lines(unneeded.0)
            + unneeded_lines(unneeded.1));
    } else {
        assert(unneeded.0 + unneeded.1 =~= unneeded.0);
        assert(unneeded_lines(unneeded.0) + unneeded_lines(unneeded.1) =~= unneeded_lines(
            unneeded.0,
        ));
    }
}

/// The lists of what will be installed tell of exactly the packages that will be, each with
/// its version: one from the repositories with those, one to build with those, and each
/// apart where it is only needed for building.
pub proof fn law_listed_packages(actions: ActionsView, make: bool, item: Seq<char>)
    ensures
        repo_items(actions.install, make).contains(item) <==> exists|i: int|
            0 <= i < actions.install.len() && (#[trigger] actions.install[i]).make == make && item
                == actions.install[i].name + "-"@ + actions.install[i].version,
        build_items(actions.build_pkgs(), make).contains(item) <==> exists|i: int|
            0 <= i < actions.build_pkgs().len() && (#[trigger] actions.build_pkgs()[i]).make == make
                && item == actions.build_pkgs()[i].pkg.name + "-"@
                + actions.build_pkgs()[i].pkg.version,
{
    text::lemma_filter_mapped(
        actions.install,
        |pkg: RepoPackageView| pkg.make == make,
        |pkg: RepoPackageView| pkg.name + "-"@ + pkg.version,
        item,
    );
    text::lemma_filter_mapped(
        actions.build_pkgs(),
        |pkg: BuildPackageView| pkg.make == make,
        |pkg: BuildPackageView| pkg.pkg.name + "-"@ + pkg.pkg.version,
        item,
    );
}

/// There is a list of each kind exactly where there are packages of that kind; its heading
/// tells how many, and its items are those packages.
pub proof fn law_install_listing(
    config: ConfigView,
    label: Seq<char>,
    start: nat,
    items: Seq<Seq<char>>,
)
    ensures
        install_listing(config, label, start, items) is Some <==> items.len() > 0,
        install_listing(config, label, start, items) matches Some(list) ==> {
            &&& list.items == items
            &&& list.head == style::painted(
                config.color.bold,
                label + " ("@ + text::decimal(items.len()) + ") "@,
            )
            &&& list.start == start + text::decimal(items.len()).len()
            &&& list.cols == config.cols
        },
{
}

/// The line about a package's conflicts names the package and everything that it conflicts
/// with, each with the name of the conflict where it has one of its own; the line about a
/// target that is up to date names the target.
pub proof fn law_lines_name_all(
    conflict: ConflictView,
    conflicting: ConflictingView,
    reason: Seq<char>,
    target: Seq<char>,
)
    ensures
        conflict_lines(seq![conflict]) == "    "@ + conflict.pkg + ": "@ + conflicting_texts(
            conflict.conflicting,
        ) + "\n"@,
        conflicting_texts(seq![ConflictingView { conflict: None, ..conflicting }])
            == conflicting.pkg + "  "@,
        conflicting_texts(seq![ConflictingView { conflict: Some(reason), ..conflicting }])
            == conflicting.pkg + "  "@ + " ("@ + reason + ")"@,
        unneeded_lines(seq![target]) == target + " is up to date -- skipping\n"@,
{
    reveal_with_fuel(conflict_lines, 2);
    reveal_with_fuel(conflicting_texts, 2);
    reveal_with_fuel(unneeded_lines, 2);
    let one = ConflictingView { conflict: None, ..conflicting };
    let other = ConflictingView { conflict: Some(reason), ..conflicting };
    assert(seq![conflict].drop_last() =~= Seq::<ConflictView>::empty());
    assert(seq![one].drop_last() =~= Seq::<ConflictingView>::empty());
    assert(seq![other].drop_last() =~= Seq::<ConflictingView>::empty());
    assert(seq![target].drop_last() =~= Seq::<Seq<char>>::empty());
    assert(conflict_lines(seq![conflict]) =~= conflict_line(conflict));
    assert(conflicting_texts(seq![one]) =~= conflicting_text(one));
    assert(conflicting_texts(seq![other]) =~= conflicting_text(other));
    assert(unneeded_lines(seq![target]) =~= target + " is up to date -- skipping\n"@);
}

/// Every conflict is reported and every missing dependency is told: one more lengthens the
/// report by its own line, and changes nothing before it.
pub proof fn law_nothing_untold(
    color: Colors,
    title: Seq<char>,
    conflicts: Seq<ConflictView>,
    conflict: ConflictView,
    missing: Seq<MissingView>,
    dep: MissingView,
)
    ensures
        conflicts.len() > 0 ==> conflict_report(color, title, conflicts.push(conflict))
            == conflict_report(color, title, conflicts).drop_last() + conflict_line(conflict)
            + "\n"@,
        conflict_report(color, title, seq![conflict]) == style::heading(
            color.error,
            color.bold,
            title,
        ) + "\n"@ + conflict_line(conflict) + "\n"@,
        missing_text(color, missing.push(dep)) == missing_text(color, missing) + missing_line(
            color,
            dep,
        ),
        dep.stack.len() > 0 ==> missing_line(color, dep) == "\n    "@ + style::painted(
            color.error,
            dep.dep,
        ) + " ("@ + text::joined(dep.stack, " -> "@) + ")"@,
{
    reveal_strlit("\n");
    assert(conflicts.push(conflict).drop_last() =~= conflicts);
    assert(missing.push(dep).drop_last() =~= missing);
    let head = style::heading(color.error, color.bold, title) + "\n"@;
    if conflicts.len() > 0 {
        assert(conflict_report(color, title, conflicts).drop_last() =~= head + conflict_lines(
            conflicts,
        ));
        assert(conflict_report(color, title, conflicts.push(conflict)) =~= conflict_report(
            color,
            title,
            conflicts,
        ).drop_last() + conflict_line(conflict) + "\n"@);
    }
    assert(seq![conflict].drop_last() =~= Seq::<ConflictView>::empty());
    assert(conflict_lines(Seq::<ConflictView>::empty()) =~= Seq::<char>::empty());
    assert(conflict_lines(seq![conflict]) =~= conflict_line(conflict));
    assert(conflict_report(color, title, seq![conflict]) =~= head + conflict_line(conflict)
        + "\n"@);
    assert(missing_text(color, missing.push(dep)) =~= missing_text(color, missing) + missing_line(
        color,
        dep,
    ));
}

/// There is one list for each of the four kinds of packages of which there are any, in this
/// order: from the repositories, from there only for building, to build, and to build only
/// for building.
pub proof fn law_install_listings(config: ConfigView, actions: ActionsView)
    ensures
        ({
            let lists = install_listings(config, actions);
            let kinds = seq![
                repo_items(actions.install, false),
                repo_items(actions.install, true),
                build_items(actions.build_pkgs(), false),
                build_items(actions.build_pkgs(), true),
            ];
            &&& lists.map_values(|list: ListingView| list.items) == kinds.filter(
                |items: Seq<Seq<char>>| items.len() > 0,
            )
            &&& install_listing(config, "Repo"@, 17, kinds[0]) matches Some(list) ==> lists.contains(
                list,
            )
            &&& install_listing(config, "Repo Make"@, 22, kinds[1]) matches Some(list)
                ==> lists.contains(list)
            &&& install_listing(config, "Aur"@, 16, kinds[2]) matches Some(list) ==> lists.contains(
                list,
            )
            &&& install_listing(config, "Aur Make"@, 16, kinds[3]) matches Some(list)
                ==> lists.contains(list)
        }),
{
    let kinds = seq![
        repo_items(actions.install, false),
        repo_items(actions.install, true),
        build_items(actions.build_pkgs(), false),
        build_items(actions.build_pkgs(), true),
    ];
    let lists = seq![
        install_listing(config, "Repo"@, 17, repo_items(actions.install, false)),
        install_listing(config, "Repo Make"@, 22, repo_items(actions.install, true)),
        install_listing(config, "Aur"@, 16, build_items(actions.build_pkgs(), false)),
        install_listing(config, "Aur Make"@, 16, build_items(actions.build_pkgs(), true)),
    ];
    assert(lists.take(4) =~= lists);
    assert(kinds.take(4) =~= kinds);
    lemma_lists_of_kinds(lists, kinds, 4);
    assert forall|i: int| 0 <= i < 4 && #[trigger] lists[i] is Some implies style::present(
        lists,
    ).contains(lists[i]->0) by {
        style::law_present(lists, lists[i]->0);
        assert(lists[i] == Some(lists[i]->0));
    }
    assert(lists[0] is Some ==> style::present(lists).contains(lists[0]->0));
    assert(lists[1] is Some ==> style::present(lists).contains(lists[1]->0));
    assert(lists[2] is Some ==> style::present(lists).contains(lists[2]->0));
    assert(lists[3] is Some ==> style::present(lists).contains(lists[3]->0));
}

proof fn lemma_lists_of_kinds(
    lists: Seq<Option<ListingView>>,
    kinds: Seq<Seq<Seq<char>>>,
    n: int,
)
    requires
        lists.len() == kinds.len(),
        0 <= n <= lists.len(),
        forall|i: int|
            0 <= i < lists.len() ==> (#[trigger] lists[i] is Some <==> kinds[i].len() > 0) && (
            lists[i] is Some ==> lists[i]->0.items == kinds[i]),
    ensures
        style::present(lists.take(n)).map_values(|list: ListingView| list.items) == kinds.take(
            n,
        ).filter(|items: Seq<Seq<char>>| items.len() > 0),
    decreases n,
{
    let items = |list: ListingView| list.items;
    let some = |items: Seq<Seq<char>>| items.len() > 0;
    reveal(Seq::filter);
    if n > 0 {
        lemma_lists_of_kinds(lists, kinds, n - 1);
        style::lemma_present_push(lists, n - 1);
        text::lemma_take_push(kinds, n - 1);
        text::lemma_filter_push(kinds.take(n - 1), kinds[n - 1], some);
        let before = style::present(lists.take(n - 1));
        if lists[n - 1] is Some {
            assert(before.push(lists[n - 1]->0).map_values(items) =~= before.map_values(items).push(
                kinds[n - 1],
            ));
        }
    } else {
        assert(lists.take(0) =~= Seq::<Option<ListingView>>::empty());
        assert(style::present(lists.take(0)).map_values(items) =~= kinds.take(0).filter(some));
    }
}

} // verus!

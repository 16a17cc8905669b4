//! The calls of the package manager.
use vstd::prelude::*;
use vstd::utf8;

use crate::args::ArgView;
use crate::args::Args;
use crate::args::ArgsView;
use crate::config::Config;
use crate::config::ConfigView;
use crate::error::Error;
use crate::error::ErrorView;
use crate::package::RepoPackage;
use crate::package::RepoPackageView;
use crate::text;

verus! {

/// The call that refreshes the databases.
pub open spec fn refresh_call(config: ConfigView) -> ArgsView {
    config.globals.with_arg("y"@).with_targets(Seq::empty())
}

/// Makes the call that refreshes the databases.
pub fn early_refresh(config: &Config) -> (r: Args)
    ensures
        r@ == refresh_call(config@),
{
    let mut args = config.pacman_globals();
    args.arg("y");
    args.targets = Vec::new();
    assert(text::views(args.targets@) =~= Seq::<Seq<char>>::empty());
    args
}

/// Makes the call that hands the repository targets to the package manager as the
/// user asked for it.
pub fn early_pacman(config: &Config, targets: &Vec<String>) -> (r: Args)
    ensures
        r@ == config@.args.with_targets(text::views(targets@)),
{
    let mut args = config.pacman_args();
    args.targets = text::copy_texts(targets);
    args
}

/// A call that changes why some packages are installed.
pub open spec fn reason_call(
    config: ConfigView,
    reason: Seq<char>,
    pkgs: Seq<Seq<char>>,
) -> ArgsView {
    let args = config.globals.with_op("database"@).with_arg(reason);
    args.with_targets(args.targets + pkgs)
}

fn mark(config: &Config, reason: &str, pkgs: &Vec<String>) -> (r: Option<Args>)
    ensures
        r is None <==> pkgs@.len() == 0,
        r matches Some(args) ==> args@ == reason_call(config@, reason@, text::views(pkgs@)),
{
    if pkgs.len() == 0 {
        return None;
    }
    let mut args = config.pacman_globals();
    args.op("database");
    args.arg(reason);
    text::append_texts(&mut args.targets, pkgs);
    Some(args)
}

/// Makes the call that marks packages as installed for others' sake; there is none
/// without packages.
pub fn asdeps(config: &Config, pkgs: &Vec<String>) -> (r: Option<Args>)
    ensures
        r is None <==> pkgs@.len() == 0,
        r matches Some(args) ==> args@ == reason_call(config@, "asdeps"@, text::views(pkgs@)),
{
    mark(config, "asdeps", pkgs)
}

/// Makes the call that marks packages as installed for their own sake; there is none
/// without packages.
pub fn asexp(config: &Config, pkgs: &Vec<String>) -> (r: Option<Args>)
    ensures
        r is None <==> pkgs@.len() == 0,
        r matches Some(args) ==> args@ == reason_call(config@, "asexplicit"@, text::views(pkgs@)),
{
    mark(config, "asexplicit", pkgs)
}

/// What `String::from_utf8_lossy` makes of bytes.
pub uninterp spec fn lossy_text(bytes: Seq<u8>) -> Seq<char>;

/// `String::from_utf8_lossy`: the text that the bytes encode, where they are UTF-8. What
/// stands for bytes that are not is not stated.
#[verifier::external_body]
fn decode_lossy(bytes: &Vec<u8>) -> (r: String)
    ensures
        r@ == lossy_text(bytes@),
        utf8::valid_utf8(bytes@) ==> r@ == utf8::decode_utf8(bytes@),
{
    String::from_utf8_lossy(bytes).into_owned()
}

/// Decides what a call that marks packages came to, given whether it succeeded and what
/// it wrote to its standard error.
pub fn marked(success: bool, stderr: &Vec<u8>) -> (r: Result<(), Error>)
    ensures
        r is Ok <==> success,
        r matches Err(e) ==> e@ == ErrorView::Mark(lossy_text(stderr@)) && (utf8::valid_utf8(
            stderr@,
        ) ==> e@ == ErrorView::Mark(utf8::decode_utf8(stderr@))),
{
    if success {
        Ok(())
    } else {
        Err(Error::Mark(decode_lossy(stderr)))
    }
}

/// The bit that answers the package manager's question about a conflict.
pub const CONFLICT_PKG: i32 = 4;

/// A set of answers with the one about conflicts in it.
pub open spec fn with_conflict_answer(answers: i32) -> i32 {
    answers | CONFLICT_PKG
}

/// The answers that the value of an option stands for; none where it is no number.
pub open spec fn answers_of(value: Option<Seq<char>>) -> i32 {
    match value {
        Some(value) => match text::spelled(value) {
            Some(n) => n as i32,
            None => 0,
        },
        None => 0,
    }
}

/// Whether `i` is the place of the first option of a name.
pub open spec fn first_called(args: Seq<ArgView>, key: Seq<char>, i: int) -> bool {
    &&& 0 <= i < args.len()
    &&& args[i].key == key
    &&& forall|j: int| 0 <= j < i ==> (#[trigger] args[j]).key != key
}

/// The call with the conflict answered beforehand: the first `ask` option gets the
/// answer added; where there is none, there is one now.
pub open spec fn asking(args: ArgsView) -> ArgsView {
    if exists|i: int| first_called(args.args, "ask"@, i) {
        let i = choose|i: int| first_called(args.args, "ask"@, i);
        let answers = with_conflict_answer(answers_of(args.args[i].value));
        let arg = ArgView { value: Some(text::signed_decimal(answers as int)), ..args.args[i] };
        ArgsView { args: args.args.update(i, arg), ..args }
    } else {
        args.with_value("ask"@, text::signed_decimal(CONFLICT_PKG as int))
    }
}

/// The call that installs package files. Each option that relaxes dependency checks
/// is there once more in its short form. Without a conflict nobody is asked; a conflict
/// is left to the user, or answered beforehand.
pub open spec fn upgrade_call(
    config: ConfigView,
    files: Seq<Seq<char>>,
    conflict: bool,
) -> ArgsView {
    let plain = config.globals.with_op("upgrade"@);
    let args = plain.with_args("d"@, plain.count("d"@, "nodeps"@));
    let args = if !conflict {
        args.with_arg("noconfirm"@)
    } else if config.use_ask {
        asking(args)
    } else {
        args
    };
    args.with_targets(files)
}

fn find_first(args: &Args, key: &str) -> (r: Option<usize>)
    ensures
        match r {
            Some(i) => first_called(args@.args, key@, i as int),
            None => forall|i: int| !first_called(args@.args, key@, i),
        },
{
    for i in 0..args.args.len()
        invariant
            forall|j: int| 0 <= j < i ==> (#[trigger] args@.args[j]).key != key@,
    {
        if text::same(args.args[i].key.as_str(), key) {
            return Some(i);
        }
    }
    None
}

fn ask_beforehand(args: &mut Args)
    ensures
        final(args)@ == asking(old(args)@),
{
    match find_first(args, "ask") {
        Some(i) => {
            let answers: i32 = match &args.args[i].value {
                Some(value) => match text::parse_i32(value.as_str()) {
                    Some(n) => n,
                    None => 0,
                },
                None => 0,
            };
            let value = text::signed_text(answers | CONFLICT_PKG);
            let ghost k = choose|k: int| first_called(old(args)@.args, "ask"@, k);
            assert(k == i) by {
                assert(first_called(old(args)@.args, "ask"@, k));
                assert(k < i ==> old(args)@.args[k].key != "ask"@);
                assert(i < k ==> old(args)@.args[i as int].key != "ask"@);
            }
            let mut arg = args.args[i].clone();
            arg.value = Some(value);
            args.args.set(i, arg);
            assert(args@.args =~= asking(old(args)@).args);
        },
        None => {
            let value = text::signed_text(CONFLICT_PKG);
            args.push_value("ask", value.as_str());
        },
    }
}

/// Makes the call that installs the package files in the queue; there is none while
/// the queue is empty.
pub fn do_install(config: &Config, install_queue: &Vec<String>, conflict: bool) -> (r: Option<Args>)
    ensures
        r is None <==> install_queue@.len() == 0,
        r matches Some(args) ==> args@ == upgrade_call(
            config@,
            text::views(install_queue@),
            conflict,
        ),
{
    if install_queue.len() == 0 {
        return None;
    }
    let mut args = config.pacman_globals();
    args.op("upgrade");
    let ghost plain = args@;
    let n = args.count("d", "nodeps");
    assert(plain.args + Seq::new(0, |k: int| ArgView { key: "d"@, value: None }) =~= plain.args);
    for i in 0..n
        invariant
            args@ == plain.with_args("d"@, i as nat),
    {
        args.arg("d");
        assert(args@.args =~= plain.with_args("d"@, (i + 1) as nat).args);
    }
    if conflict {
        if config.use_ask {
            ask_beforehand(&mut args);
        }
    } else {
        args.arg("noconfirm");
    }
    args.targets = text::copy_texts(install_queue);
    Some(args)
}

/// Packages from the repositories: the call that installs them, and how the new ones
/// are marked afterwards.
pub struct RepoInstall {
    pub args: Args,
    pub deps: Vec<String>,
    pub exp: Vec<String>,
}

/// The targets, each with the repository that it comes from.
pub open spec fn repo_targets(install: Seq<RepoPackageView>) -> Seq<Seq<char>> {
    install.map_values(|pkg: RepoPackageView| pkg.db + "/"@ + pkg.name)
}

/// The call that installs packages from the repositories.
pub open spec fn repo_call(config: ConfigView, install: Seq<RepoPackageView>) -> ArgsView {
    let args = config.args.without("d"@).without("e"@).without("y"@).with_targets(
        repo_targets(install),
    );
    if !config.combined_upgrade || config.mode == "aur"@ {
        args.without("u"@)
    } else {
        args
    }
}

/// The names of the packages that are not installed yet and were, or were not, asked
/// for by name.
pub open spec fn fresh_names(
    install: Seq<RepoPackageView>,
    installed: Seq<bool>,
    target: bool,
) -> Seq<Seq<char>> {
    text::marked(install, installed, false).filter(
        |pkg: RepoPackageView| pkg.target == target,
    ).map_values(|pkg: RepoPackageView| pkg.name)
}

proof fn lemma_fresh_push(
    install: Seq<RepoPackageView>,
    installed: Seq<bool>,
    target: bool,
    n: int,
)
    requires
        0 <= n < install.len(),
    ensures
        fresh_names(install.take(n + 1), installed, target) == (if !installed[n]
            && install[n].target == target {
            fresh_names(install.take(n), installed, target).push(install[n].name)
        } else {
            fresh_names(install.take(n), installed, target)
        }),
{
    let keep = |pkg: RepoPackageView| pkg.target == target;
    let name = |pkg: RepoPackageView| pkg.name;
    text::lemma_marked_push(install, installed, n, false);
    let before = text::marked(install.take(n), installed, false);
    text::lemma_filter_push(before, install[n], keep);
    assert(before.filter(keep).push(install[n]).map_values(name) =~= before.filter(keep).map_values(
        name,
    ).push(install[n].name));
}

proof fn lemma_fresh_none(install: Seq<RepoPackageView>, installed: Seq<bool>, target: bool)
    ensures
        fresh_names(install.take(0), installed, target) == Seq::<Seq<char>>::empty(),
{
    reveal(Seq::filter);
    text::lemma_marked_none(install, installed, false);
    assert(fresh_names(install.take(0), installed, target) =~= Seq::<Seq<char>>::empty());
}

/// Makes the call that installs packages from the repositories.
pub fn repo_args(config: &Config, install: &Vec<RepoPackage>) -> (r: Args)
    ensures
        r@ == repo_call(config@, text::views(install@)),
{
    let mut targets: Vec<String> = Vec::new();
    let ghost all = repo_targets(text::views(install@));
    assert(text::views(targets@) =~= all.take(0));
    for i in 0..install.len()
        invariant
            all == repo_targets(text::views(install@)),
            text::views(targets@) == all.take(i as int),
    {
        let mut target = install[i].db.clone();
        target.append("/");
        target.append(install[i].name.as_str());
        proof {
            text::lemma_take_push(all, i as int);
            text::lemma_views_push(targets@, target);
        }
        targets.push(target);
    }
    assert(all.take(install@.len() as int) =~= all);
    let mut args = config.pacman_args();
    args.remove("d");
    args.remove("e");
    args.remove("y");
    args.targets = targets;
    if !config.combined_upgrade || text::same(config.mode.as_str(), "aur") {
        args.remove("u");
    }
    args
}

/// Decides how packages from the repositories are installed; there is nothing to do
/// without packages. `installed` says of each package whether it is installed already.
pub fn repo_install(config: &Config, install: &Vec<RepoPackage>, installed: &Vec<bool>) -> (r:
    Option<RepoInstall>)
    requires
        installed@.len() == install@.len(),
    ensures
        r is None <==> install@.len() == 0,
        r matches Some(todo) ==> {
            let pkgs = text::views(install@);
            &&& todo.args@ == repo_call(config@, pkgs)
            &&& text::views(todo.deps@) == fresh_names(pkgs, installed@, false)
            &&& text::views(todo.exp@) == fresh_names(pkgs, installed@, true)
        },
{
    if install.len() == 0 {
        return None;
    }
    let mut deps: Vec<String> = Vec::new();
    let mut exp: Vec<String> = Vec::new();
    let ghost pkgs = text::views(install@);
    proof {
        lemma_fresh_none(pkgs, installed@, true);
        lemma_fresh_none(pkgs, installed@, false);
    }
    assert(text::views(deps@) =~= fresh_names(pkgs.take(0), installed@, false));
    assert(text::views(exp@) =~= fresh_names(pkgs.take(0), installed@, true));
    for i in 0..install.len()
        invariant
            pkgs == text::views(install@),
            installed@.len() == install@.len(),
            text::views(deps@) == fresh_names(pkgs.take(i as int), installed@, false),
            text::views(exp@) == fresh_names(pkgs.take(i as int), installed@, true),
    {
        let pkg = &install[i];
        let name = pkg.name.clone();
        proof {
            lemma_fresh_push(pkgs, installed@, true, i as int);
            lemma_fresh_push(pkgs, installed@, false, i as int);
            text::lemma_views_push(exp@, name);
            text::lemma_views_push(deps@, name);
        }
        if !installed[i] {
            if pkg.target {
                exp.push(name);
            } else {
                deps.push(name);
            }
        }
    }
    assert(pkgs.take(install@.len() as int) =~= pkgs);
    Some(RepoInstall { args: repo_args(config, install), deps, exp })
}

/// A call that installs package files relaxes the dependency checks twice as often as
/// the options for every call do.
pub proof fn law_upgrade_nodeps(config: ConfigView, files: Seq<Seq<char>>)
    ensures
        upgrade_call(config, files, false).count("d"@, "nodeps"@) == 2 * config.globals.count(
            "d"@,
            "nodeps"@,
        ),
{
    let plain = config.globals.with_op("upgrade"@);
    let n = plain.count("d"@, "nodeps"@);
    lemma_count_more(plain, "d"@, "nodeps"@, n);
    let args = plain.with_args("d"@, n);
    reveal_strlit("noconfirm");
    reveal_strlit("nodeps");
    reveal_strlit("d");
    assert("noconfirm"@.len() != "d"@.len());
    assert("noconfirm"@.len() != "nodeps"@.len());
    text::lemma_filter_push(
        args.args,
        ArgView { key: "noconfirm"@, value: None },
        crate::args::called("d"@, "nodeps"@),
    );
}

proof fn lemma_count_more(args: ArgsView, short: Seq<char>, long: Seq<char>, n: nat)
    ensures
        args.with_args(short, n).count(short, long) == args.count(short, long) + n,
    decreases n,
{
    let more = args.with_args(short, n).args;
    if n == 0 {
        assert(more =~= args.args);
    } else {
        let m = (n - 1) as nat;
        lemma_count_more(args, short, long, m);
        let fewer = args.with_args(short, m).args;
        assert(more =~= fewer.push(ArgView { key: short, value: None }));
        text::lemma_filter_push(
            fewer,
            ArgView { key: short, value: None },
            crate::args::called(short, long),
        );
    }
}

/// Answering a conflict beforehand keeps the other answers and sets the one bit.
pub proof fn law_conflict_answer(answers: i32)
    ensures
        with_conflict_answer(answers) & CONFLICT_PKG == CONFLICT_PKG,
        with_conflict_answer(answers) & !CONFLICT_PKG == answers & !CONFLICT_PKG,
{
    assert((answers | 4i32) & 4i32 == 4i32) by (bit_vector);
    assert((answers | 4i32) & !4i32 == answers & !4i32) by (bit_vector);
}

/// Each package that is not installed yet is marked once, for its own sake or for
/// others' sake, and no other package is.
pub proof fn law_repo_marks(install: Seq<RepoPackageView>, installed: Seq<bool>)
    requires
        installed.len() == install.len(),
    ensures
        fresh_names(install, installed, true).len() + fresh_names(install, installed, false).len()
            == installed.filter(|there: bool| !there).len(),
        forall|i: int|
            0 <= i < install.len() && !installed[i] ==> fresh_names(
                install,
                installed,
                (#[trigger] install[i]).target,
            ).contains(install[i].name),
{
    lemma_repo_marks(install, installed, install.len() as int);
    assert(install.take(install.len() as int) =~= install);
    assert(installed.take(install.len() as int) =~= installed);
}

proof fn lemma_repo_marks(install: Seq<RepoPackageView>, installed: Seq<bool>, n: int)
    requires
        installed.len() == install.len(),
        0 <= n <= install.len(),
    ensures
        fresh_names(install.take(n), installed, true).len() + fresh_names(
            install.take(n),
            installed,
            false,
        ).len() == installed.take(n).filter(|there: bool| !there).len(),
        forall|i: int|
            0 <= i < n && !installed[i] ==> fresh_names(
                install.take(n),
                installed,
                (#[trigger] install[i]).target,
            ).contains(install[i].name),
    decreases n,
{
    reveal(Seq::filter);
    lemma_fresh_none(install, installed, true);
    lemma_fresh_none(install, installed, false);
    if n > 0 {
        lemma_repo_marks(install, installed, n - 1);
        lemma_fresh_push(install, installed, true, n - 1);
        lemma_fresh_push(install, installed, false, n - 1);
        text::lemma_take_push(installed, n - 1);
        text::lemma_filter_push(installed.take(n - 1), installed[n - 1], |there: bool| !there);
        assert forall|i: int| 0 <= i < n && !installed[i] implies fresh_names(
            install.take(n),
            installed,
            (#[trigger] install[i]).target,
        ).contains(install[i].name) by {
            let less = fresh_names(install.take(n - 1), installed, install[i].target);
            let more = fresh_names(install.take(n), installed, install[i].target);
            if i < n - 1 {
                let k = choose|k: int| 0 <= k < less.len() && less[k] == install[i].name;
                assert(more[k] == install[i].name);
            } else {
                assert(more[less.len() as int] == install[i].name);
            }
        }
    }
}

/// Without a conflict the package manager asks nobody.
pub proof fn law_no_conflict_no_question(config: ConfigView, files: Seq<Seq<char>>)
    ensures
        upgrade_call(config, files, false).has_arg("noconfirm"@, "noconfirm"@),
{
    let args = upgrade_call(config, files, false).args;
    assert(args[args.len() - 1].key == "noconfirm"@);
    assert(crate::args::called("noconfirm"@, "noconfirm"@)(args[args.len() - 1]));
}

/// A package from the repositories is marked exactly where it was not installed before: on
/// the one side where it was asked for, on the other where it was not.
pub proof fn law_fresh_names(
    install: Seq<RepoPackageView>,
    installed: Seq<bool>,
    target: bool,
    name: Seq<char>,
)
    requires
        installed.len() == install.len(),
    ensures
        fresh_names(install, installed, target).contains(name) <==> exists|i: int|
            0 <= i < install.len() && !installed[i] && (#[trigger] install[i]).target == target
                && install[i].name == name,
{
    let new = text::marked(install, installed, false);
    let keep = |pkg: RepoPackageView| pkg.target == target;
    let called = |pkg: RepoPackageView| pkg.name;
    text::lemma_filter_mapped(new, keep, called, name);
    if fresh_names(install, installed, target).contains(name) {
        let k = choose|k: int| 0 <= k < new.len() && keep(#[trigger] new[k]) && called(new[k]) == name;
        text::law_marked(install, installed, false, new[k]);
        assert(new.contains(new[k]));
        let i = choose|i: int|
            0 <= i < install.len() && #[trigger] install[i] == new[k] && installed[i] == false;
        assert(install[i].name == name);
    }
    if exists|i: int|
        0 <= i < install.len() && !installed[i] && (#[trigger] install[i]).target == target
            && install[i].name == name {
        let i = choose|i: int|
            0 <= i < install.len() && !installed[i] && (#[trigger] install[i]).target == target
                && install[i].name == name;
        text::law_marked(install, installed, false, install[i]);
        assert(install[i] == install[i] && installed[i] == false);
        let k = choose|k: int| 0 <= k < new.len() && new[k] == install[i];
        assert(keep(new[k]) && called(new[k]) == name);
    }
}

/// The databases are refreshed with the options of every call and one more, and without
/// targets.
pub proof fn law_refresh_call(config: ConfigView)
    ensures
        refresh_call(config).op == config.globals.op,
        refresh_call(config).targets.len() == 0,
        refresh_call(config).args.len() == config.globals.args.len() + 1,
        refresh_call(config).args.drop_last() == config.globals.args,
        refresh_call(config).args.last().key == "y"@,
        refresh_call(config).args.last().value is None,
{
    assert(refresh_call(config).args.drop_last() =~= config.globals.args);
}

/// Packages are marked in the database, for the one reason and no other: exactly the
/// packages that were named are the targets, behind those of every call.
pub proof fn law_reason_call(config: ConfigView, reason: Seq<char>, pkgs: Seq<Seq<char>>)
    ensures
        ({
            let call = reason_call(config, reason, pkgs);
            &&& call.op == "database"@
            &&& call.args.drop_last() == config.globals.args
            &&& call.args.len() == config.globals.args.len() + 1
            &&& call.args.last().key == reason && call.args.last().value is None
            &&& call.targets.take(config.globals.targets.len() as int) == config.globals.targets
            &&& call.targets.skip(config.globals.targets.len() as int) == pkgs
        }),
{
    let call = reason_call(config, reason, pkgs);
    assert(call.args.drop_last() =~= config.globals.args);
    assert(call.targets.take(config.globals.targets.len() as int) =~= config.globals.targets);
    assert(call.targets.skip(config.globals.targets.len() as int) =~= pkgs);
}

/// Packages from the repositories are installed each from the repository that it was found
/// in. The options that relax dependency checks, mark reasons or refresh are left out, and
/// the one that upgrades everything unless that is to happen in one go with the AUR and
/// not only the AUR is looked at. All other options of the command line stay.
pub proof fn law_repo_call(config: ConfigView, install: Seq<RepoPackageView>, arg: ArgView)
    ensures
        ({
            let call = repo_call(config, install);
            let upgrade = config.combined_upgrade && config.mode != "aur"@;
            &&& call.op == config.args.op
            &&& call.targets.len() == install.len()
            &&& forall|i: int|
                0 <= i < install.len() ==> #[trigger] call.targets[i] == install[i].db + "/"@
                    + install[i].name
            &&& call.args.contains(arg) <==> config.args.args.contains(arg) && arg.key != "d"@
                && arg.key != "e"@ && arg.key != "y"@ && (arg.key == "u"@ ==> upgrade)
        }),
{
    let a = config.args;
    let b = a.without("d"@);
    let c = b.without("e"@);
    let d = c.without("y"@).with_targets(repo_targets(install));
    crate::args::law_without(a, "d"@, arg);
    crate::args::law_without(b, "e"@, arg);
    crate::args::law_without(c, "y"@, arg);
    crate::args::law_without(d, "u"@, arg);
}

/// Package files are installed by upgrading to them. Exactly the files are targets; the
/// options of every call stay, except that an answer about conflicts may be added to one;
/// without a conflict nobody is asked, and with one it is answered beforehand exactly
/// where the settings say so.
pub proof fn law_upgrade_call(config: ConfigView, files: Seq<Seq<char>>, conflict: bool)
    ensures
        ({
            let call = upgrade_call(config, files, conflict);
            let n = config.globals.args.len() as int;
            let relaxed = config.globals.count("d"@, "nodeps"@);
            let plain = upgrade_call(ConfigView { use_ask: false, ..config }, files, true);
            &&& call.op == "upgrade"@
            &&& call.targets == files
            &&& plain.args.len() == n + relaxed
            &&& plain.args.take(n) == config.globals.args
            &&& forall|i: int|
                n <= i < plain.args.len() ==> (#[trigger] plain.args[i]).key == "d"@
                    && plain.args[i].value is None
            &&& !conflict ==> call.args.drop_last() == plain.args && call.args.len()
                == plain.args.len() + 1 && call.args.last().key == "noconfirm"@
                && call.args.last().value is None
            &&& conflict && !config.use_ask ==> call.args == plain.args
            &&& conflict && config.use_ask ==> call.args == asking(plain).args
        }),
{
    let call = upgrade_call(config, files, conflict);
    let plain = upgrade_call(ConfigView { use_ask: false, ..config }, files, true);
    let n = config.globals.args.len() as int;
    assert(config.globals.with_op("upgrade"@).count("d"@, "nodeps"@) == config.globals.count(
        "d"@,
        "nodeps"@,
    ));
    assert(plain.args.take(n) =~= config.globals.args);
    if !conflict {
        assert(call.args.drop_last() =~= plain.args);
    }
    if conflict && config.use_ask {
        let m = config.globals.with_op("upgrade"@).with_args(
            "d"@,
            config.globals.count("d"@, "nodeps"@),
        );
        assert(m.args == plain.args);
        lemma_asking_targets(m, plain);
    }
}

proof fn lemma_asking_targets(a: ArgsView, b: ArgsView)
    requires
        a.args == b.args,
    ensures
        asking(a).args == asking(b).args,
        asking(a).op == a.op && asking(a).targets == a.targets,
{
}

/// Answering beforehand: there is an `ask` option afterwards, and the first of that name
/// holds the answers that it held, with the one about conflicts among them. It stands where
/// it stood, or at the end where there was none; every other option stays.
pub proof fn law_asking(args: ArgsView)
    ensures
        ({
            let after = asking(args);
            let there = exists|i: int| 0 <= i < args.args.len() && (#[trigger] args.args[i]).key
                == "ask"@;
            &&& after.op == args.op && after.targets == args.targets
            &&& after.args.len() == args.args.len() + (if there {
                0nat
            } else {
                1
            })
            &&& exists|k: int|
                {
                    &&& #[trigger] first_called(after.args, "ask"@, k)
                    &&& there ==> first_called(args.args, "ask"@, k) && after.args[k].value == Some(
                        text::signed_decimal(
                            (answers_of(args.args[k].value) | CONFLICT_PKG) as int,
                        ),
                    )
                    &&& !there ==> k == args.args.len() && after.args[k].value == Some(
                        text::signed_decimal(CONFLICT_PKG as int),
                    )
                    &&& forall|i: int|
                        0 <= i < args.args.len() && i != k ==> after.args[i]
                            == #[trigger] args.args[i]
                }
        }),
{
    let after = asking(args);
    let n = args.args.len() as int;
    if exists|i: int| 0 <= i < args.args.len() && (#[trigger] args.args[i]).key == "ask"@ {
        let i = choose|i: int| 0 <= i < args.args.len() && (#[trigger] args.args[i]).key == "ask"@;
        lemma_first_called(args.args, "ask"@, i);
        let k = choose|i: int| first_called(args.args, "ask"@, i);
        assert(first_called(after.args, "ask"@, k)) by {
            assert forall|j: int| 0 <= j < k implies (#[trigger] after.args[j]).key != "ask"@ by {
                assert(after.args[j] == args.args[j]);
            }
        }
    } else {
        assert forall|i: int| !first_called(args.args, "ask"@, i) by {}
        assert(first_called(after.args, "ask"@, n)) by {
            assert forall|j: int| 0 <= j < n implies (#[trigger] after.args[j]).key != "ask"@ by {
                assert(after.args[j] == args.args[j]);
            }
        }
    }
}

proof fn lemma_first_called(args: Seq<ArgView>, key: Seq<char>, i: int)
    requires
        0 <= i < args.len(),
        args[i].key == key,
    ensures
        exists|k: int| first_called(args, key, k),
    decreases i,
{
    if exists|j: int| 0 <= j < i && (#[trigger] args[j]).key == key {
        let j = choose|j: int| 0 <= j < i && (#[trigger] args[j]).key == key;
        lemma_first_called(args, key, j);
    } else {
        assert(first_called(args, key, i));
    }
}

/// The answers that an option held are the number that its value spells, and none where it
/// spells no number or there is no value.
pub proof fn law_answers(value: Option<Seq<char>>, n: i32)
    ensures
        value is None ==> answers_of(value) == 0,
        value is Some && text::spelled(value->0) is None ==> answers_of(value) == 0,
        value is Some && text::spelled(value->0) == Some(n as int) ==> answers_of(value) == n,
        CONFLICT_PKG == 4,
{
}

/// The marks keep the order of the packages: those of two runs of packages are those of the
/// first and then those of the second.
pub proof fn law_fresh_names_in_order(
    install: (Seq<RepoPackageView>, Seq<RepoPackageView>),
    installed: (Seq<bool>, Seq<bool>),
    target: bool,
)
    requires
        installed.0.len() == install.0.len(),
        installed.1.len() == install.1.len(),
    ensures
        fresh_names(install.0 + install.1, installed.0 + installed.1, target) == fresh_names(
            install.0,
            installed.0,
            target,
        ) + fresh_names(install.1, installed.1, target),
{
    text::law_marked_in_order(install, installed, false);
    text::lemma_filter_mapped_add(
        text::marked(install.0, installed.0, false),
        text::marked(install.1, installed.1, false),
        |pkg: RepoPackageView| pkg.target == target,
        |pkg: RepoPackageView| pkg.name,
    );
}

} // verus!

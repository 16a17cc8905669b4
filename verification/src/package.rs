//! Packages and what is to be done with them.
use vstd::prelude::*;

use crate::text;

verus! {

/// A package of the AUR.
pub struct AurPackage {
    pub name: String,
    pub package_base: String,
    pub version: String,
    /// Who looks after the package, if anybody does.
    pub maintainer: Option<String>,
    /// When the package was flagged out of date, if it was.
    pub out_of_date: Option<i64>,
    pub depends: Vec<String>,
    pub make_depends: Vec<String>,
    pub check_depends: Vec<String>,
}

#[verifier::ext_equal]
pub struct AurPackageView {
    pub name: Seq<char>,
    pub package_base: Seq<char>,
    pub version: Seq<char>,
    pub maintainer: Option<Seq<char>>,
    pub out_of_date: Option<i64>,
    pub depends: Seq<Seq<char>>,
    pub make_depends: Seq<Seq<char>>,
    pub check_depends: Seq<Seq<char>>,
}

impl View for AurPackage {
    type V = AurPackageView;

    open spec fn view(&self) -> AurPackageView {
        AurPackageView {
            name: self.name@,
            package_base: self.package_base@,
            version: self.version@,
            maintainer: text::option_view(self.maintainer),
            out_of_date: self.out_of_date,
            depends: text::views(self.depends@),
            make_depends: text::views(self.make_depends@),
            check_depends: text::views(self.check_depends@),
        }
    }
}

impl Clone for AurPackage {
    fn clone(&self) -> (r: Self)
        ensures
            r@ == self@,
    {
        let maintainer = match &self.maintainer {
            Some(maintainer) => Some(maintainer.clone()),
            None => None,
        };
        AurPackage {
            name: self.name.clone(),
            package_base: self.package_base.clone(),
            version: self.version.clone(),
            maintainer,
            out_of_date: self.out_of_date,
            depends: text::copy_texts(&self.depends),
            make_depends: text::copy_texts(&self.make_depends),
            check_depends: text::copy_texts(&self.check_depends),
        }
    }
}

impl AurPackageView {
    /// Everything that must be installed before the package is built and checked.
    pub open spec fn all_depends(self) -> Seq<Seq<char>> {
        self.depends + self.make_depends + self.check_depends
    }
}

impl AurPackage {
    /// Lists everything that must be installed before the package is built and checked.
    pub fn all_depends(&self) -> (r: Vec<String>)
        ensures
            text::views(r@) == self@.all_depends(),
    {
        let mut out = text::copy_texts(&self.depends);
        text::append_texts(&mut out, &self.make_depends);
        text::append_texts(&mut out, &self.check_depends);
        out
    }
}

/// A package to build.
pub struct BuildPackage {
    pub pkg: AurPackage,
    /// Whether it is only needed to build other packages.
    pub make: bool,
    /// Whether it was asked for by name.
    pub target: bool,
}

#[verifier::ext_equal]
pub struct BuildPackageView {
    pub pkg: AurPackageView,
    pub make: bool,
    pub target: bool,
}

impl View for BuildPackage {
    type V = BuildPackageView;

    open spec fn view(&self) -> BuildPackageView {
        BuildPackageView { pkg: self.pkg@, make: self.make, target: self.target }
    }
}

/// The packages to build from one package base.
pub struct BuildBase {
    pub pkgs: Vec<BuildPackage>,
}

#[verifier::ext_equal]
pub struct BuildBaseView {
    pub pkgs: Seq<BuildPackageView>,
}

impl View for BuildBase {
    type V = BuildBaseView;

    open spec fn view(&self) -> BuildBaseView {
        BuildBaseView { pkgs: text::views(self.pkgs@) }
    }
}

/// The names from the second package on, each after a space.
pub open spec fn further_names(pkgs: Seq<BuildPackageView>) -> Seq<char>
    decreases pkgs.len(),
{
    if pkgs.len() <= 1 {
        Seq::empty()
    } else {
        further_names(pkgs.drop_last()) + " "@ + pkgs.last().pkg.name
    }
}

impl BuildBaseView {
    /// There is a package.
    pub open spec fn wf(self) -> bool {
        self.pkgs.len() > 0
    }

    /// The name of the base.
    pub open spec fn package_base(self) -> Seq<char> {
        self.pkgs[0].pkg.package_base
    }

    pub open spec fn version(self) -> Seq<char> {
        self.pkgs[0].pkg.version
    }

    /// Base and version, and the packages where they are not just one of the base's name.
    pub open spec fn text(self) -> Seq<char> {
        let name = self.package_base() + "-"@ + self.version();
        if self.pkgs.len() == 1 && self.pkgs[0].pkg.name == self.package_base() {
            name
        } else {
            name + " ("@ + self.pkgs[0].pkg.name + further_names(self.pkgs) + ")"@
        }
    }

    /// Whether one of the packages was asked for by name.
    pub open spec fn has_target(self) -> bool {
        exists|i: int| 0 <= i < self.pkgs.len() && (#[trigger] self.pkgs[i]).target
    }

    /// Whether one of the packages has one of the names.
    pub open spec fn has_name_in(self, names: Seq<Seq<char>>) -> bool {
        exists|i: int| 0 <= i < self.pkgs.len() && names.contains((#[trigger] self.pkgs[i]).pkg.name)
    }
}

impl BuildBase {
    /// The name of the base.
    pub fn package_base(&self) -> (r: &str)
        requires
            self@.wf(),
        ensures
            r@ == self@.package_base(),
    {
        self.pkgs[0].pkg.package_base.as_str()
    }

    /// The version of the base.
    pub fn version(&self) -> (r: &str)
        requires
            self@.wf(),
        ensures
            r@ == self@.version(),
    {
        self.pkgs[0].pkg.version.as_str()
    }

    /// Writes the base as the user is to see it.
    pub fn text(&self) -> (r: String)
        requires
            self@.wf(),
        ensures
            r@ == self@.text(),
    {
        let mut out = self.package_base().to_owned();
        out.append("-");
        out.append(self.version());
        assert(self@.pkgs[0] == self.pkgs[0]@);
        if !(self.pkgs.len() == 1 && text::same(self.pkgs[0].pkg.name.as_str(), self.package_base())) {
            out.append(" (");
            out.append(self.pkgs[0].pkg.name.as_str());
            let ghost head = out@;
            assert(head + further_names(self@.pkgs.take(1)) =~= head);
            for i in 1..self.pkgs.len()
                invariant
                    self@.wf(),
                    out@ == head + further_names(self@.pkgs.take(i as int)),
            {
                proof {
                    text::lemma_take_push(self@.pkgs, i as int);
                }
                out.append(" ");
                out.append(self.pkgs[i].pkg.name.as_str());
                assert(out@ =~= head + further_names(self@.pkgs.take(i + 1)));
            }
            assert(self@.pkgs.take(self.pkgs@.len() as int) =~= self@.pkgs);
            out.append(")");
        }
        out
    }

    /// Whether one of the packages was asked for by name.
    pub fn has_target(&self) -> (r: bool)
        ensures
            r == self@.has_target(),
    {
        for i in 0..self.pkgs.len()
            invariant
                forall|j: int| 0 <= j < i ==> !(#[trigger] self@.pkgs[j]).target,
        {
            if self.pkgs[i].target {
                assert(self@.pkgs[i as int].target);
                return true;
            }
        }
        false
    }

    /// Whether one of the packages has one of the names.
    pub fn has_name_in(&self, names: &Vec<String>) -> (r: bool)
        ensures
            r == self@.has_name_in(text::views(names@)),
    {
        for i in 0..self.pkgs.len()
            invariant
                forall|j: int|
                    0 <= j < i ==> !text::views(names@).contains(
                        (#[trigger] self@.pkgs[j]).pkg.name,
                    ),
        {
            if text::contains(names, self.pkgs[i].pkg.name.as_str()) {
                assert(text::views(names@).contains(self@.pkgs[i as int].pkg.name));
                return true;
            }
        }
        false
    }
}

/// A package to install from a repository.
pub struct RepoPackage {
    pub db: String,
    pub name: String,
    pub version: String,
    /// Whether it is only needed to build other packages.
    pub make: bool,
    /// Whether it was asked for by name.
    pub target: bool,
}

#[verifier::ext_equal]
pub struct RepoPackageView {
    pub db: Seq<char>,
    pub name: Seq<char>,
    pub version: Seq<char>,
    pub make: bool,
    pub target: bool,
}

impl View for RepoPackage {
    type V = RepoPackageView;

    open spec fn view(&self) -> RepoPackageView {
        RepoPackageView {
            db: self.db@,
            name: self.name@,
            version: self.version@,
            make: self.make,
            target: self.target,
        }
    }
}

/// A dependency that nothing satisfies, and the packages that led to it.
pub struct Missing {
    pub dep: String,
    pub stack: Vec<String>,
}

#[verifier::ext_equal]
pub struct MissingView {
    pub dep: Seq<char>,
    pub stack: Seq<Seq<char>>,
}

impl View for Missing {
    type V = MissingView;

    open spec fn view(&self) -> MissingView {
        MissingView { dep: self.dep@, stack: text::views(self.stack@) }
    }
}

/// A package that another conflicts with, and the conflict where it has a name of its own.
pub struct Conflicting {
    pub pkg: String,
    pub conflict: Option<String>,
}

#[verifier::ext_equal]
pub struct ConflictingView {
    pub pkg: Seq<char>,
    pub conflict: Option<Seq<char>>,
}

impl View for Conflicting {
    type V = ConflictingView;

    open spec fn view(&self) -> ConflictingView {
        ConflictingView { pkg: self.pkg@, conflict: text::option_view(self.conflict) }
    }
}

/// A package with the packages that it conflicts with.
pub struct Conflict {
    pub pkg: String,
    pub conflicting: Vec<Conflicting>,
}

#[verifier::ext_equal]
pub struct ConflictView {
    pub pkg: Seq<char>,
    pub conflicting: Seq<ConflictingView>,
}

impl View for Conflict {
    type V = ConflictView;

    open spec fn view(&self) -> ConflictView {
        ConflictView { pkg: self.pkg@, conflicting: text::views(self.conflicting@) }
    }
}

/// What resolving the targets came to.
pub struct Actions {
    /// The bases to build, in order.
    pub build: Vec<BuildBase>,
    /// The packages to install from the repositories.
    pub install: Vec<RepoPackage>,
    pub missing: Vec<Missing>,
    /// The targets that are up to date.
    pub unneeded: Vec<String>,
    /// The names that are wanted more than once.
    pub duplicates: Vec<String>,
}

#[verifier::ext_equal]
pub struct ActionsView {
    pub build: Seq<BuildBaseView>,
    pub install: Seq<RepoPackageView>,
    pub missing: Seq<MissingView>,
    pub unneeded: Seq<Seq<char>>,
    pub duplicates: Seq<Seq<char>>,
}

impl View for Actions {
    type V = ActionsView;

    open spec fn view(&self) -> ActionsView {
        ActionsView {
            build: text::views(self.build@),
            install: text::views(self.install@),
            missing: text::views(self.missing@),
            unneeded: text::views(self.unneeded@),
            duplicates: text::views(self.duplicates@),
        }
    }
}

impl ActionsView {
    /// Every base to build has a package.
    pub open spec fn wf(self) -> bool {
        forall|i: int| 0 <= i < self.build.len() ==> (#[trigger] self.build[i]).wf()
    }

    /// The packages to build, base after base.
    pub open spec fn build_pkgs(self) -> Seq<BuildPackageView> {
        build_pkgs(self.build)
    }

    /// The names of the bases to build.
    pub open spec fn build_bases(self) -> Seq<Seq<char>> {
        self.build.map_values(|base: BuildBaseView| base.package_base())
    }
}

/// The packages of some bases, base after base.
pub open spec fn build_pkgs(build: Seq<BuildBaseView>) -> Seq<BuildPackageView>
    decreases build.len(),
{
    if build.len() == 0 {
        Seq::empty()
    } else {
        build_pkgs(build.drop_last()) + build.last().pkgs
    }
}

/// The views of some borrowed packages.
pub open spec fn borrowed(pkgs: Seq<&BuildPackage>) -> Seq<BuildPackageView> {
    pkgs.map_values(|pkg: &BuildPackage| pkg@)
}

impl Actions {
    /// Lists the packages to build, base after base.
    pub fn build_pkgs(&self) -> (r: Vec<&BuildPackage>)
        ensures
            borrowed(r@) == self@.build_pkgs(),
    {
        let mut out: Vec<&BuildPackage> = Vec::new();
        assert(self@.build.take(0) =~= Seq::<BuildBaseView>::empty());
        assert(borrowed(out@) =~= build_pkgs(self@.build.take(0)));
        for i in 0..self.build.len()
            invariant
                borrowed(out@) == build_pkgs(self@.build.take(i as int)),
        {
            let base = &self.build[i];
            let ghost before = borrowed(out@);
            assert(before + base@.pkgs.take(0) =~= before);
            for j in 0..base.pkgs.len()
                invariant
                    borrowed(out@) == before + base@.pkgs.take(j as int),
            {
                let ghost less = out@;
                out.push(&base.pkgs[j]);
                assert(borrowed(out@) =~= borrowed(less).push(base@.pkgs[j as int]));
                assert(borrowed(out@) =~= before + base@.pkgs.take(j + 1));
            }
            assert(base@.pkgs.take(base.pkgs@.len() as int) =~= base@.pkgs);
            proof {
                text::lemma_take_push(self@.build, i as int);
            }
        }
        assert(self@.build.take(self.build@.len() as int) =~= self@.build);
        out
    }
}

/// A package is to be built exactly where it belongs to one of the bases to build.
pub proof fn law_build_pkgs(build: Seq<BuildBaseView>, pkg: BuildPackageView)
    ensures
        build_pkgs(build).contains(pkg) <==> exists|i: int|
            0 <= i < build.len() && (#[trigger] build[i]).pkgs.contains(pkg),
    decreases build.len(),
{
    if build.len() > 0 {
        let init = build.drop_last();
        law_build_pkgs(init, pkg);
        let less = build_pkgs(init);
        let more = build_pkgs(build);
        if less.contains(pkg) {
            let k = choose|k: int| 0 <= k < less.len() && less[k] == pkg;
            assert(more[k] == pkg);
            let i = choose|i: int| 0 <= i < init.len() && (#[trigger] init[i]).pkgs.contains(pkg);
            assert(build[i].pkgs.contains(pkg));
        }
        if build.last().pkgs.contains(pkg) {
            let own = build.last().pkgs;
            let k = choose|k: int| 0 <= k < own.len() && own[k] == pkg;
            assert(more[less.len() + k] == pkg);
            assert(build[build.len() - 1].pkgs.contains(pkg));
        }
        if more.contains(pkg) && !less.contains(pkg) {
            let k = choose|k: int| 0 <= k < more.len() && more[k] == pkg;
            if k < less.len() {
                assert(less[k] == pkg);
            } else {
                assert(build.last().pkgs[k - less.len()] == pkg);
            }
        }
        if exists|i: int| 0 <= i < build.len() && (#[trigger] build[i]).pkgs.contains(pkg) {
            let i = choose|i: int| 0 <= i < build.len() && (#[trigger] build[i]).pkgs.contains(pkg);
            if i < init.len() {
                assert(init[i].pkgs.contains(pkg));
            }
        }
    }
}

/// The packages of two runs of bases are those of the first and then those of the second;
/// one base gives its own packages.
pub proof fn law_build_pkgs_in_order(first: Seq<BuildBaseView>, second: Seq<BuildBaseView>)
    ensures
        build_pkgs(first + second) == build_pkgs(first) + build_pkgs(second),
        second.len() == 1 ==> build_pkgs(second) == second[0].pkgs,
    decreases second.len(),
{
    if second.len() == 0 {
        assert(first + second =~= first);
        assert(build_pkgs(first) + build_pkgs(second) =~= build_pkgs(first));
    } else {
        law_build_pkgs_in_order(first, second.drop_last());
        assert((first + second).drop_last() =~= first + second.drop_last());
        assert(build_pkgs(first + second) =~= build_pkgs(first) + build_pkgs(second));
        if second.len() == 1 {
            assert(build_pkgs(second) =~= second[0].pkgs);
        }
    }
}

/// What a package needs before it is built is all that it depends on, needs for building
/// and needs for checking, and nothing else.
pub proof fn law_all_depends(pkg: AurPackageView, dep: Seq<char>)
    ensures
        pkg.all_depends().contains(dep) <==> pkg.depends.contains(dep)
            || pkg.make_depends.contains(dep) || pkg.check_depends.contains(dep),
        pkg.all_depends().len() == pkg.depends.len() + pkg.make_depends.len()
            + pkg.check_depends.len(),
{
    let all = pkg.all_depends();
    let a = pkg.depends.len() as int;
    let b = pkg.make_depends.len() as int;
    if pkg.depends.contains(dep) {
        let k = choose|k: int| 0 <= k < pkg.depends.len() && pkg.depends[k] == dep;
        assert(all[k] == dep);
    }
    if pkg.make_depends.contains(dep) {
        let k = choose|k: int| 0 <= k < pkg.make_depends.len() && pkg.make_depends[k] == dep;
        assert(all[a + k] == dep);
    }
    if pkg.check_depends.contains(dep) {
        let k = choose|k: int| 0 <= k < pkg.check_depends.len() && pkg.check_depends[k] == dep;
        assert(all[a + b + k] == dep);
    }
    if all.contains(dep) {
        let k = choose|k: int| 0 <= k < all.len() && all[k] == dep;
        if k < a {
            assert(pkg.depends[k] == dep);
        } else if k < a + b {
            assert(pkg.make_depends[k - a] == dep);
        } else {
            assert(pkg.check_depends[k - a - b] == dep);
        }
    }
}

/// A base goes by the name and the version of its first package; it counts as asked for
/// where one of its packages was, and as named where one of its packages is.
pub proof fn law_base_of_packages(base: BuildBaseView, more: BuildPackageView, names: Seq<Seq<char>>)
    requires
        base.wf(),
    ensures
        ({
            let larger = BuildBaseView { pkgs: base.pkgs.push(more) };
            &&& base.package_base() == base.pkgs.first().pkg.package_base
            &&& base.version() == base.pkgs.first().pkg.version
            &&& larger.package_base() == base.package_base()
            &&& larger.version() == base.version()
            &&& larger.has_target() == (base.has_target() || more.target)
            &&& larger.has_name_in(names) == (base.has_name_in(names) || names.contains(
                more.pkg.name,
            ))
        }),
        !(BuildBaseView { pkgs: Seq::empty() }).has_target(),
        !(BuildBaseView { pkgs: Seq::empty() }).has_name_in(names),
{
    let larger = BuildBaseView { pkgs: base.pkgs.push(more) };
    assert(larger.pkgs[base.pkgs.len() as int] == more);
    if base.has_target() {
        let i = choose|i: int| 0 <= i < base.pkgs.len() && (#[trigger] base.pkgs[i]).target;
        assert(larger.pkgs[i].target);
    }
    if base.has_name_in(names) {
        let i = choose|i: int|
            0 <= i < base.pkgs.len() && names.contains((#[trigger] base.pkgs[i]).pkg.name);
        assert(names.contains(larger.pkgs[i].pkg.name));
    }
    if larger.has_target() && !more.target {
        let i = choose|i: int| 0 <= i < larger.pkgs.len() && (#[trigger] larger.pkgs[i]).target;
        assert(base.pkgs[i].target);
    }
    if larger.has_name_in(names) && !names.contains(more.pkg.name) {
        let i = choose|i: int|
            0 <= i < larger.pkgs.len() && names.contains((#[trigger] larger.pkgs[i]).pkg.name);
        assert(names.contains(base.pkgs[i].pkg.name));
    }
}

/// A base is shown by name and version alone exactly where it has one package, of its name;
/// else its packages follow in brackets. One more package is told behind the others.
pub proof fn law_build_base_text(base: BuildBaseView, more: BuildPackageView)
    requires
        base.wf(),
    ensures
        ({
            let first = base.pkgs[0].pkg;
            let name = first.package_base + "-"@ + first.version;
            let larger = BuildBaseView { pkgs: base.pkgs.push(more) };
            let alone = base.pkgs.len() == 1 && first.name == first.package_base;
            &&& alone ==> base.text() == name
            &&& !alone ==> (name + " ("@ + first.name).is_prefix_of(base.text())
                && base.text().last() == ')'
            &&& base.pkgs.len() == 1 && !alone ==> base.text() == name + " ("@ + first.name + ")"@
            &&& !alone ==> larger.text().drop_last() == base.text().drop_last() + " "@
                + more.pkg.name
        }),
{
    reveal_strlit(" (");
    reveal_strlit(")");
    let first = base.pkgs[0].pkg;
    let name = first.package_base + "-"@ + first.version;
    let larger = BuildBaseView { pkgs: base.pkgs.push(more) };
    let head = name + " ("@ + first.name;
    assert(larger.pkgs.drop_last() =~= base.pkgs);
    assert(further_names(larger.pkgs) =~= further_names(base.pkgs) + " "@ + more.pkg.name);
    if !(base.pkgs.len() == 1 && first.name == first.package_base) {
        assert(base.text().take(head.len() as int) =~= head);
        assert(base.text().drop_last() =~= head + further_names(base.pkgs));
        assert(larger.text().drop_last() =~= head + further_names(larger.pkgs));
        assert(larger.text().drop_last() =~= base.text().drop_last() + " "@ + more.pkg.name);
        if base.pkgs.len() == 1 {
            assert(base.text() =~= head + ")"@);
        }
    }
}

/// The names of the bases to build are those of the bases, in order.
pub proof fn law_build_bases(actions: ActionsView, i: int)
    requires
        0 <= i < actions.build.len(),
    ensures
        actions.build_bases().len() == actions.build.len(),
        actions.build_bases()[i] == actions.build[i].pkgs[0].pkg.package_base,
{
}

} // verus!

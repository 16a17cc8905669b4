//! Packages grouped by the package base that they are built from.
use vstd::multiset::Multiset;
use vstd::prelude::*;

use crate::package::AurPackage;
use crate::package::AurPackageView;
use crate::text;

verus! {

/// The packages of one package base.
pub struct Base {
    pub pkgs: Vec<AurPackage>,
}

impl View for Base {
    type V = Seq<AurPackageView>;

    open spec fn view(&self) -> Seq<AurPackageView> {
        text::views(self.pkgs@)
    }
}

impl Clone for Base {
    fn clone(&self) -> (r: Self)
        ensures
            r@ == self@,
    {
        let mut pkgs: Vec<AurPackage> = Vec::new();
        for i in 0..self.pkgs.len()
            invariant
                text::views(pkgs@) == self@.take(i as int),
        {
            let pkg = self.pkgs[i].clone();
            proof {
                text::lemma_views_push(pkgs@, pkg);
                text::lemma_take_push(self@, i as int);
            }
            pkgs.push(pkg);
        }
        assert(self@.take(self.pkgs@.len() as int) =~= self@);
        Base { pkgs }
    }
}

/// The name of a package base.
pub open spec fn base_name(base: Seq<AurPackageView>) -> Seq<char> {
    base[0].package_base
}

/// The names from the second package on, each with a space after it.
pub open spec fn further_names(base: Seq<AurPackageView>) -> Seq<char>
    decreases base.len(),
{
    if base.len() <= 1 {
        Seq::empty()
    } else {
        further_names(base.drop_last()) + base.last().name + " "@
    }
}

/// A base as the user is to see it: its name, and the packages where they are not just
/// one of that name.
pub open spec fn base_text(base: Seq<AurPackageView>) -> Seq<char> {
    if base.len() == 1 && base[0].name == base_name(base) {
        base[0].name
    } else {
        base_name(base) + " ("@ + base[0].name + further_names(base) + ")"@
    }
}

impl Base {
    /// The name of the base.
    pub fn package_base(&self) -> (r: &str)
        requires
            self@.len() > 0,
        ensures
            r@ == base_name(self@),
    {
        assert(self@[0] == self.pkgs[0]@);
        self.pkgs[0].package_base.as_str()
    }

    /// The version of the base.
    pub fn version(&self) -> (r: &str)
        requires
            self@.len() > 0,
        ensures
            r@ == self@[0].version,
    {
        assert(self@[0] == self.pkgs[0]@);
        self.pkgs[0].version.as_str()
    }

    /// Writes the base as the user is to see it.
    pub fn text(&self) -> (r: String)
        requires
            self@.len() > 0,
        ensures
            r@ == base_text(self@),
    {
        assert(self@[0] == self.pkgs[0]@);
        if self.pkgs.len() == 1 && text::same(self.pkgs[0].name.as_str(), self.package_base()) {
            return self.pkgs[0].name.clone();
        }
        let mut out = self.package_base().to_owned();
        out.append(" (");
        out.append(self.pkgs[0].name.as_str());
        let ghost head = out@;
        assert(head + further_names(self@.take(1)) =~= head);
        for i in 1..self.pkgs.len()
            invariant
                self@.len() > 0,
                out@ == head + further_names(self@.take(i as int)),
        {
            proof {
                text::lemma_take_push(self@, i as int);
            }
            out.append(self.pkgs[i].name.as_str());
            out.append(" ");
            assert(out@ =~= head + further_names(self@.take(i + 1)));
        }
        assert(self@.take(self.pkgs@.len() as int) =~= self@);
        out.append(")");
        out
    }
}

/// Package bases.
pub struct Bases {
    pub bases: Vec<Base>,
}

impl View for Bases {
    type V = Seq<Seq<AurPackageView>>;

    open spec fn view(&self) -> Seq<Seq<AurPackageView>> {
        text::views(self.bases@)
    }
}

/// No base is without packages.
pub open spec fn filled(bases: Seq<Seq<AurPackageView>>) -> bool {
    forall|i: int| 0 <= i < bases.len() ==> (#[trigger] bases[i]).len() > 0
}

/// The packages of a base all belong to it, and no two bases have one name.
pub open spec fn tidy(bases: Seq<Seq<AurPackageView>>) -> bool {
    &&& filled(bases)
    &&& forall|i: int, k: int|
        0 <= i < bases.len() && 0 <= k < bases[i].len() ==> (#[trigger] bases[i][k]).package_base
            == base_name(bases[i])
    &&& forall|i: int, j: int|
        0 <= i < bases.len() && 0 <= j < bases.len() && base_name(#[trigger] bases[i])
            == base_name(#[trigger] bases[j]) ==> i == j
}

/// Whether `i` is the place of the first base of a name.
pub open spec fn first_named(bases: Seq<Seq<AurPackageView>>, name: Seq<char>, i: int) -> bool {
    &&& 0 <= i < bases.len()
    &&& base_name(bases[i]) == name
    &&& forall|j: int| 0 <= j < i ==> base_name(#[trigger] bases[j]) != name
}

/// Whether the bases can be searched for a name from the beginning: no base without
/// packages is met before the first of the name.
pub open spec fn searchable(bases: Seq<Seq<AurPackageView>>, name: Seq<char>) -> bool {
    forall|i: int|
        0 <= i < bases.len() && (forall|j: int| 0 <= j < i ==> base_name(#[trigger] bases[j]) != name)
            ==> (#[trigger] bases[i]).len() > 0
}

/// Whether packages can be added one after the other.
pub open spec fn extendable(bases: Seq<Seq<AurPackageView>>, pkgs: Seq<AurPackageView>) -> bool {
    forall|k: int|
        0 <= k < pkgs.len() ==> searchable(
            extended(bases, #[trigger] pkgs.take(k)),
            pkgs[k].package_base,
        )
}

/// Whether a base has the name.
pub open spec fn has_base(bases: Seq<Seq<AurPackageView>>, name: Seq<char>) -> bool {
    exists|i: int| first_named(bases, name, i)
}

/// The place of the first base of a name, where there is one.
pub open spec fn place(bases: Seq<Seq<AurPackageView>>, name: Seq<char>) -> int {
    choose|i: int| first_named(bases, name, i)
}

/// The bases with one more package: it joins the first base of its name, or makes a new
/// one at the end.
pub open spec fn pushed(bases: Seq<Seq<AurPackageView>>, pkg: AurPackageView) -> Seq<Seq<AurPackageView>> {
    if has_base(bases, pkg.package_base) {
        let i = place(bases, pkg.package_base);
        bases.update(i, bases[i].push(pkg))
    } else {
        bases.push(seq![pkg])
    }
}

/// The bases with some more packages, one after the other.
pub open spec fn extended(bases: Seq<Seq<AurPackageView>>, pkgs: Seq<AurPackageView>) -> Seq<
    Seq<AurPackageView>,
>
    decreases pkgs.len(),
{
    if pkgs.len() == 0 {
        bases
    } else {
        pushed(extended(bases, pkgs.drop_last()), pkgs.last())
    }
}

/// Packages grouped by base.
pub open spec fn grouped(pkgs: Seq<AurPackageView>) -> Seq<Seq<AurPackageView>> {
    extended(Seq::empty(), pkgs)
}

pub proof fn lemma_first_named(bases: Seq<Seq<AurPackageView>>, name: Seq<char>, i: int, j: int)
    requires
        first_named(bases, name, i),
        first_named(bases, name, j),
    ensures
        i == j,
{
    assert(i < j ==> base_name(bases[i]) != name);
    assert(j < i ==> base_name(bases[j]) != name);
}

proof fn lemma_pushed_filled(bases: Seq<Seq<AurPackageView>>, pkg: AurPackageView)
    requires
        filled(bases),
    ensures
        filled(pushed(bases, pkg)),
{
    if has_base(bases, pkg.package_base) {
        assert(first_named(bases, pkg.package_base, place(bases, pkg.package_base)));
    }
}

proof fn lemma_extended_filled(bases: Seq<Seq<AurPackageView>>, pkgs: Seq<AurPackageView>)
    requires
        filled(bases),
    ensures
        filled(extended(bases, pkgs)),
    decreases pkgs.len(),
{
    if pkgs.len() > 0 {
        lemma_extended_filled(bases, pkgs.drop_last());
        lemma_pushed_filled(extended(bases, pkgs.drop_last()), pkgs.last());
    }
}

/// Packages can always be added to bases of which none is without packages.
pub proof fn lemma_extendable(bases: Seq<Seq<AurPackageView>>, pkgs: Seq<AurPackageView>)
    requires
        filled(bases),
    ensures
        extendable(bases, pkgs),
{
    assert forall|k: int| 0 <= k < pkgs.len() implies searchable(
        extended(bases, #[trigger] pkgs.take(k)),
        pkgs[k].package_base,
    ) by {
        lemma_extended_filled(bases, pkgs.take(k));
    }
}

impl Bases {
    /// No bases.
    pub fn new() -> (r: Self)
        ensures
            r@ == Seq::<Seq<AurPackageView>>::empty(),
    {
        let r = Bases { bases: Vec::new() };
        assert(r@ =~= Seq::<Seq<AurPackageView>>::empty());
        r
    }

    /// Finds the first base of a name.
    pub fn find(&self, name: &str) -> (r: Option<usize>)
        requires
            searchable(self@, name@),
        ensures
            match r {
                Some(i) => first_named(self@, name@, i as int) && place(self@, name@) == i,
                None => !has_base(self@, name@),
            },
    {
        for i in 0..self.bases.len()
            invariant
                searchable(self@, name@),
                forall|j: int| 0 <= j < i ==> base_name(#[trigger] self@[j]) != name@,
        {
            assert(self@[i as int] == self.bases[i as int]@);
            if text::same(self.bases[i].package_base(), name) {
                proof {
                    assert(first_named(self@, name@, i as int));
                    lemma_first_named(self@, name@, i as int, place(self@, name@));
                }
                return Some(i);
            }
        }
        None
    }

    /// Adds a package to the base that it belongs to.
    pub fn push(&mut self, pkg: AurPackage)
        requires
            searchable(old(self)@, pkg@.package_base),
        ensures
            filled(old(self)@) ==> filled(final(self)@),
            final(self)@ == pushed(old(self)@, pkg@),
    {
        proof {
            if filled(self@) {
                lemma_pushed_filled(self@, pkg@);
            }
        }
        match self.find(pkg.package_base.as_str()) {
            Some(i) => {
                assert(has_base(self@, pkg@.package_base));
                proof {
                    text::lemma_views_push(self.bases[i as int].pkgs@, pkg);
                }
                self.bases[i].pkgs.push(pkg);
                assert(self@ =~= pushed(old(self)@, pkg@));
            },
            None => {
                let base = Base { pkgs: vec![pkg] };
                assert(base@ =~= seq![pkg@]);
                proof {
                    text::lemma_views_push(self.bases@, base);
                }
                self.bases.push(base);
            },
        }
    }

    /// Adds packages to the bases that they belong to.
    pub fn extend(&mut self, pkgs: Vec<AurPackage>)
        requires
            extendable(old(self)@, text::views(pkgs@)),
        ensures
            filled(old(self)@) ==> filled(final(self)@),
            final(self)@ == extended(old(self)@, text::views(pkgs@)),
    {
        let ghost all = text::views(pkgs@);
        assert(all.take(0) =~= Seq::<AurPackageView>::empty());
        for pkg in it: pkgs
            invariant
                all == text::views(it.seq()),
                extendable(old(self)@, all),
                filled(old(self)@) ==> filled(self@),
                self@ == extended(old(self)@, all.take(it.index() as int)),
        {
            proof {
                text::lemma_take_push(all, it.index() as int);
            }
            self.push(pkg);
        }
        assert(all.take(all.len() as int) =~= all);
    }

    /// Groups packages by the base that they belong to.
    pub fn from_iter(pkgs: Vec<AurPackage>) -> (r: Self)
        ensures
            filled(r@),
            r@ == grouped(text::views(pkgs@)),
    {
        let mut bases = Bases::new();
        proof {
            lemma_extendable(bases@, text::views(pkgs@));
        }
        bases.extend(pkgs);
        bases
    }

    /// The names of the bases.
    pub fn names(&self) -> (r: Vec<String>)
        requires
            filled(self@),
        ensures
            text::views(r@) == names_of(self@),
    {
        let mut out: Vec<String> = Vec::new();
        assert(text::views(out@) =~= names_of(self@).take(0));
        for i in 0..self.bases.len()
            invariant
                filled(self@),
                text::views(out@) == names_of(self@).take(i as int),
        {
            assert(self@[i as int] == self.bases[i as int]@);
            let name = self.bases[i].package_base().to_owned();
            proof {
                text::lemma_views_push(out@, name);
                text::lemma_take_push(names_of(self@), i as int);
            }
            out.push(name);
        }
        assert(names_of(self@).take(self.bases@.len() as int) =~= names_of(self@));
        out
    }
}

/// The names of bases.
pub open spec fn names_of(bases: Seq<Seq<AurPackageView>>) -> Seq<Seq<char>> {
    bases.map_values(|base: Seq<AurPackageView>| base_name(base))
}

/// The bases that packages belong to, each where it first comes up.
pub open spec fn first_bases(pkgs: Seq<AurPackageView>) -> Seq<Seq<char>>
    decreases pkgs.len(),
{
    if pkgs.len() == 0 {
        Seq::empty()
    } else {
        let before = first_bases(pkgs.drop_last());
        if before.contains(pkgs.last().package_base) {
            before
        } else {
            before.push(pkgs.last().package_base)
        }
    }
}

/// The test for a package of a base.
pub open spec fn belongs(name: Seq<char>) -> spec_fn(AurPackageView) -> bool {
    |pkg: AurPackageView| pkg.package_base == name
}

proof fn lemma_place(bases: Seq<Seq<AurPackageView>>, name: Seq<char>)
    ensures
        has_base(bases, name) <==> names_of(bases).contains(name),
        has_base(bases, name) ==> first_named(bases, name, place(bases, name)),
    decreases bases.len(),
{
    if has_base(bases, name) {
        let i = place(bases, name);
        assert(names_of(bases)[i] == name);
    }
    if names_of(bases).contains(name) {
        lemma_first_exists(bases, name, choose|i: int|
            0 <= i < bases.len() && names_of(bases)[i] == name);
    }
}

proof fn lemma_first_exists(bases: Seq<Seq<AurPackageView>>, name: Seq<char>, i: int)
    requires
        0 <= i < bases.len(),
        base_name(bases[i]) == name,
    ensures
        has_base(bases, name),
    decreases i,
{
    if exists|j: int| 0 <= j < i && base_name(#[trigger] bases[j]) == name {
        let j = choose|j: int| 0 <= j < i && base_name(#[trigger] bases[j]) == name;
        lemma_first_exists(bases, name, j);
    } else {
        assert(first_named(bases, name, i));
    }
}

/// Adding a package keeps the bases tidy.
pub proof fn law_push_keeps_tidy(bases: Seq<Seq<AurPackageView>>, pkg: AurPackageView)
    requires
        tidy(bases),
    ensures
        tidy(pushed(bases, pkg)),
{
    let name = pkg.package_base;
    let more = pushed(bases, pkg);
    lemma_place(bases, name);
    lemma_pushed_filled(bases, pkg);
    if has_base(bases, name) {
        let i = place(bases, name);
        assert(forall|j: int|
            0 <= j < bases.len() ==> base_name(#[trigger] more[j]) == base_name(bases[j]));
        assert forall|j: int, k: int|
            0 <= j < more.len() && 0 <= k < more[j].len() implies (
        #[trigger] more[j][k]).package_base == base_name(more[j]) by {
            if j != i || k < bases[i].len() {
                assert(more[j][k] == bases[j][k]);
            }
        }
    } else {
        assert(more[bases.len() as int] == seq![pkg]);
        assert forall|j: int, k: int|
            0 <= j < more.len() && 0 <= k < more[j].len() implies (
        #[trigger] more[j][k]).package_base == base_name(more[j]) by {
            if j < bases.len() {
                assert(more[j][k] == bases[j][k]);
            }
        }
        assert forall|a: int, b: int|
            0 <= a < more.len() && 0 <= b < more.len() && base_name(#[trigger] more[a])
                == base_name(#[trigger] more[b]) implies a == b by {
            if a < bases.len() && b == bases.len() {
                assert(names_of(bases)[a] == name);
            }
            if b < bases.len() && a == bases.len() {
                assert(names_of(bases)[b] == name);
            }
            if a < bases.len() && b < bases.len() {
                assert(base_name(bases[a]) == base_name(bases[b]));
            }
        }
    }
}

/// All packages of the bases.
pub open spec fn packages(bases: Seq<Seq<AurPackageView>>) -> Multiset<AurPackageView>
    decreases bases.len(),
{
    if bases.len() == 0 {
        Multiset::empty()
    } else {
        packages(bases.drop_last()).add(bases.last().to_multiset())
    }
}

proof fn lemma_packages_update(bases: Seq<Seq<AurPackageView>>, i: int, pkg: AurPackageView)
    requires
        0 <= i < bases.len(),
    ensures
        packages(bases.update(i, bases[i].push(pkg))) == packages(bases).insert(pkg),
    decreases bases.len(),
{
    let more = bases.update(i, bases[i].push(pkg));
    if i < bases.len() - 1 {
        lemma_packages_update(bases.drop_last(), i, pkg);
        assert(more.drop_last() =~= bases.drop_last().update(i, bases[i].push(pkg)));
    } else {
        assert(more.drop_last() =~= bases.drop_last());
        broadcast use vstd::seq_lib::group_to_multiset_ensures;
    }
    assert(packages(more) =~= packages(bases).insert(pkg));
}

/// Adding a package loses and invents none: the packages are those that were there and
/// the new one. Each base that was there keeps its place, its name and its version.
pub proof fn law_push_adds_one(bases: Seq<Seq<AurPackageView>>, pkg: AurPackageView)
    requires
        filled(bases),
    ensures
        packages(pushed(bases, pkg)) == packages(bases).insert(pkg),
        pushed(bases, pkg).len() >= bases.len(),
        forall|i: int|
            0 <= i < bases.len() ==> base_name(#[trigger] pushed(bases, pkg)[i]) == base_name(
                bases[i],
            ) && pushed(bases, pkg)[i][0].version == bases[i][0].version,
{
    let more = pushed(bases, pkg);
    if has_base(bases, pkg.package_base) {
        let i = place(bases, pkg.package_base);
        assert(first_named(bases, pkg.package_base, i));
        lemma_packages_update(bases, i, pkg);
        assert(forall|j: int| 0 <= j < bases.len() ==> (#[trigger] more[j])[0] == bases[j][0]);
    } else {
        broadcast use vstd::seq_lib::group_to_multiset_ensures;
        assert(more.drop_last() =~= bases);
        assert(seq![pkg] =~= Seq::<AurPackageView>::empty().push(pkg));
        assert(packages(more) =~= packages(bases).insert(pkg));
    }
}

/// Grouping packages gives each base once, in the order in which the bases first come
/// up, and gives it exactly its packages, in their order.
pub proof fn law_grouping(pkgs: Seq<AurPackageView>)
    ensures
        tidy(grouped(pkgs)),
        names_of(grouped(pkgs)) == first_bases(pkgs),
        forall|i: int|
            0 <= i < grouped(pkgs).len() ==> #[trigger] grouped(pkgs)[i] == pkgs.filter(
                belongs(base_name(grouped(pkgs)[i])),
            ),
        forall|k: int|
            0 <= k < pkgs.len() ==> names_of(grouped(pkgs)).contains(
                (#[trigger] pkgs[k]).package_base,
            ),
    decreases pkgs.len(),
{
    reveal(Seq::filter);
    if pkgs.len() == 0 {
        assert(names_of(grouped(pkgs)) =~= first_bases(pkgs));
    } else {
        let init = pkgs.drop_last();
        let pkg = pkgs.last();
        let name = pkg.package_base;
        let before = grouped(init);
        let after = grouped(pkgs);
        law_grouping(init);
        law_push_keeps_tidy(before, pkg);
        lemma_place(before, name);
        assert(pkgs =~= init.push(pkg));
        if has_base(before, name) {
            let p = place(before, name);
            assert(names_of(after) =~= names_of(before));
            assert forall|i: int| 0 <= i < after.len() implies #[trigger] after[i] == pkgs.filter(
                belongs(base_name(after[i])),
            ) by {
                text::lemma_filter_push(init, pkg, belongs(base_name(before[i])));
                assert(before[i] == init.filter(belongs(base_name(before[i]))));
                if i != p {
                    assert(base_name(before[i]) != base_name(before[p]));
                }
                assert(base_name(after[i]) == base_name(before[i]));
            }
        } else {
            let p = before.len() as int;
            assert(names_of(after) =~= names_of(before).push(name));
            assert forall|i: int| 0 <= i < after.len() implies #[trigger] after[i] == pkgs.filter(
                belongs(base_name(after[i])),
            ) by {
                if i < p {
                    text::lemma_filter_push(init, pkg, belongs(base_name(before[i])));
                    assert(before[i] == init.filter(belongs(base_name(before[i]))));
                    assert(names_of(before)[i] == base_name(before[i]));
                } else {
                    text::lemma_filter_push(init, pkg, belongs(name));
                    lemma_none_belongs(init, name, names_of(before));
                    assert(after[i] =~= init.filter(belongs(name)).push(pkg));
                }
            }
        }
        assert forall|k: int| 0 <= k < pkgs.len() implies names_of(after).contains(
            (#[trigger] pkgs[k]).package_base,
        ) by {
            if k < init.len() {
                assert(init[k] == pkgs[k]);
                let i = choose|i: int|
                    0 <= i < names_of(before).len() && names_of(before)[i]
                        == init[k].package_base;
                assert(names_of(after)[i] == names_of(before)[i]);
            } else if has_base(before, name) {
                assert(names_of(after)[place(before, name)] == name);
            } else {
                assert(names_of(after)[before.len() as int] == name);
            }
        }
    }
}

proof fn lemma_none_belongs(pkgs: Seq<AurPackageView>, name: Seq<char>, names: Seq<Seq<char>>)
    requires
        !names.contains(name),
        forall|k: int| 0 <= k < pkgs.len() ==> names.contains((#[trigger] pkgs[k]).package_base),
    ensures
        pkgs.filter(belongs(name)) == Seq::<AurPackageView>::empty(),
    decreases pkgs.len(),
{
    reveal(Seq::filter);
    if pkgs.len() > 0 {
        let init = pkgs.drop_last();
        assert forall|k: int| 0 <= k < init.len() implies names.contains(
            (#[trigger] init[k]).package_base,
        ) by {
            assert(init[k] == pkgs[k]);
        }
        lemma_none_belongs(init, name, names);
        assert(pkgs =~= init.push(pkgs.last()));
        text::lemma_filter_push(init, pkgs.last(), belongs(name));
        assert(names.contains(pkgs[pkgs.len() - 1].package_base));
    }
}

/// Adding packages in two goes is adding them in one.
pub proof fn law_extend_twice(
    bases: Seq<Seq<AurPackageView>>,
    first: Seq<AurPackageView>,
    second: Seq<AurPackageView>,
)
    ensures
        extended(extended(bases, first), second) == extended(bases, first + second),
    decreases second.len(),
{
    if second.len() == 0 {
        assert(first + second =~= first);
    } else {
        law_extend_twice(bases, first, second.drop_last());
        assert((first + second).drop_last() =~= first + second.drop_last());
    }
}

/// A base is shown by its name alone exactly where it has one package, of that name; else
/// its packages follow in brackets. One more package is told behind the others.
pub proof fn law_base_text(base: Seq<AurPackageView>, more: AurPackageView)
    requires
        base.len() > 0,
    ensures
        base.len() == 1 && base[0].name == base[0].package_base ==> base_text(base)
            == base[0].package_base,
        base.len() > 1 || base[0].name != base[0].package_base ==> (base[0].package_base + " ("@
            + base[0].name).is_prefix_of(base_text(base)) && base_text(base).last() == ')',
        further_names(base.push(more)) == further_names(base) + more.name + " "@,
        base.len() == 1 ==> further_names(base).len() == 0,
        base.len() > 1 || base[0].name != base[0].package_base ==> base_text(base.push(more)).drop_last()
            == base_text(base).drop_last() + more.name + " "@,
{
    reveal_strlit(" (");
    reveal_strlit(")");
    reveal_strlit(" ");
    assert(base.push(more).drop_last() =~= base);
    let larger = base.push(more);
    assert(further_names(larger) =~= further_names(base) + more.name + " "@);
    if base.len() > 1 || base[0].name != base[0].package_base {
        let head = base[0].package_base + " ("@ + base[0].name;
        assert(base_text(base).take(head.len() as int) =~= head);
        assert(base_text(base).drop_last() =~= head + further_names(base));
        assert(base_text(larger).drop_last() =~= head + further_names(larger));
        assert(base_text(larger).drop_last() =~= base_text(base).drop_last() + more.name + " "@);
    }
}

/// A search finds a base exactly where one has the name, and then the first that has.
pub proof fn law_found_by_name(bases: Seq<Seq<AurPackageView>>, name: Seq<char>)
    ensures
        has_base(bases, name) <==> exists|i: int|
            0 <= i < bases.len() && (#[trigger] bases[i])[0].package_base == name,
        has_base(bases, name) ==> {
            let at = place(bases, name);
            &&& 0 <= at < bases.len()
            &&& bases[at][0].package_base == name
            &&& forall|j: int| 0 <= j < at ==> (#[trigger] bases[j])[0].package_base != name
        },
{
    lemma_place(bases, name);
    if exists|i: int| 0 <= i < bases.len() && (#[trigger] bases[i])[0].package_base == name {
        let i = choose|i: int| 0 <= i < bases.len() && (#[trigger] bases[i])[0].package_base == name;
        lemma_first_exists(bases, name, i);
    }
    if has_base(bases, name) {
        let at = place(bases, name);
        assert(bases[at][0].package_base == name);
        assert forall|j: int| 0 <= j < at implies (#[trigger] bases[j])[0].package_base != name by {
            assert(base_name(bases[j]) != name);
        }
    }
}

/// Grouping in terms of the packages alone: every package is in exactly the base of its
/// name, no package is invented, and the names of the bases are all different.
pub proof fn law_grouped_packages(pkgs: Seq<AurPackageView>, pkg: AurPackageView)
    ensures
        pkgs.contains(pkg) <==> exists|i: int|
            0 <= i < grouped(pkgs).len() && (#[trigger] grouped(pkgs)[i]).contains(pkg),
        forall|i: int|
            0 <= i < grouped(pkgs).len() && (#[trigger] grouped(pkgs)[i]).contains(pkg)
                ==> grouped(pkgs)[i][0].package_base == pkg.package_base,
        packages(grouped(pkgs)) == pkgs.to_multiset(),
        names_of(grouped(pkgs)).no_duplicates(),
{
    law_grouping(pkgs);
    let bases = grouped(pkgs);
    assert forall|i: int| 0 <= i < bases.len() && (#[trigger] bases[i]).contains(pkg) implies
        bases[i][0].package_base == pkg.package_base && pkgs.contains(pkg) by {
        let test = belongs(base_name(bases[i]));
        assert(bases[i] == pkgs.filter(test));
        text::lemma_filter_item(pkgs, test, pkg);
    }
    if pkgs.contains(pkg) {
        let k = choose|k: int| 0 <= k < pkgs.len() && pkgs[k] == pkg;
        assert(names_of(bases).contains(pkgs[k].package_base));
        let i = choose|i: int|
            0 <= i < names_of(bases).len() && names_of(bases)[i] == pkg.package_base;
        let test = belongs(base_name(bases[i]));
        text::lemma_filter_item(pkgs, test, pkg);
        assert(bases[i] == pkgs.filter(test));
        assert(bases[i].contains(pkg));
    }
    lemma_packages_grouped(pkgs);
    let names = names_of(bases);
    assert forall|a: int, b: int|
        0 <= a < names.len() && 0 <= b < names.len() && a != b implies names[a] != names[b] by {
        assert(base_name(bases[a]) != base_name(bases[b]));
    }
}

proof fn lemma_packages_grouped(pkgs: Seq<AurPackageView>)
    ensures
        packages(grouped(pkgs)) == pkgs.to_multiset(),
    decreases pkgs.len(),
{
    broadcast use vstd::seq_lib::group_to_multiset_ensures;

    if pkgs.len() > 0 {
        let init = pkgs.drop_last();
        lemma_packages_grouped(init);
        lemma_extended_filled(Seq::empty(), init);
        law_push_adds_one(grouped(init), pkgs.last());
        assert(pkgs =~= init.push(pkgs.last()));
        assert(packages(grouped(pkgs)) =~= pkgs.to_multiset());
    } else {
        assert(packages(grouped(pkgs)) =~= pkgs.to_multiset());
    }
}

/// The names of bases are those that their first packages give, in order.
pub proof fn law_names(bases: Seq<Seq<AurPackageView>>, i: int)
    requires
        0 <= i < bases.len(),
    ensures
        names_of(bases).len() == bases.len(),
        names_of(bases)[i] == bases[i][0].package_base,
{
}

} // verus!

//! What there is to say about packages of the AUR before they are used.
use vstd::prelude::*;

use crate::package::AurPackage;
use crate::package::AurPackageView;
use crate::style::Colors;
use crate::style::Listing;
use crate::style::ListingView;
use crate::style::Style;
use crate::style;
use crate::text;

verus! {

/// The packages that were found, and the names that need a word.
pub struct Warnings {
    pub pkgs: Vec<AurPackage>,
    /// Names that the AUR does not know.
    pub missing: Vec<String>,
    /// Packages that were flagged out of date.
    pub ood: Vec<String>,
    /// Packages that nobody looks after.
    pub orphans: Vec<String>,
}

#[verifier::ext_equal]
pub struct WarningsView {
    pub pkgs: Seq<AurPackageView>,
    pub missing: Seq<Seq<char>>,
    pub ood: Seq<Seq<char>>,
    pub orphans: Seq<Seq<char>>,
}

impl View for Warnings {
    type V = WarningsView;

    open spec fn view(&self) -> WarningsView {
        WarningsView {
            pkgs: text::views(self.pkgs@),
            missing: text::views(self.missing@),
            ood: text::views(self.ood@),
            orphans: text::views(self.orphans@),
        }
    }
}

/// A list of names under a heading; there is none without names.
pub open spec fn listing_of(
    color: Colors,
    cols: Option<usize>,
    title: Seq<char>,
    start: nat,
    names: Seq<Seq<char>>,
) -> Option<ListingView> {
    if names.len() == 0 {
        None
    } else {
        Some(
            ListingView {
                head: style::heading(color.error, color.bold, title),
                style: style::plain(),
                start,
                indent: 4,
                cols,
                sep: "  "@,
                items: names,
            },
        )
    }
}

fn list(color: Colors, cols: Option<usize>, title: &str, start: usize, names: &Vec<String>) -> (r:
    Option<Listing>)
    ensures
        text::option_view(r) == listing_of(
            color,
            cols,
            title@,
            start as nat,
            text::views(names@),
        ),
{
    if names.len() == 0 {
        return None;
    }
    Some(
        Listing {
            head: style::heading_text(color.error, color.bold, title),
            style: Style::new(),
            start,
            indent: 4,
            cols,
            sep: "  ".to_owned(),
            items: text::copy_texts(names),
        },
    )
}

impl WarningsView {
    /// The list of names that the AUR does not know, which starts where
    /// `:: could not find packages: ` ends.
    pub open spec fn missing_listing(self, color: Colors, cols: Option<usize>) -> Option<
        ListingView,
    > {
        listing_of(color, cols, "Could not find packages: "@, 28, self.missing)
    }

    /// The list of packages out of date, which starts where `:: out of date: ` ends.
    pub open spec fn ood_listing(self, color: Colors, cols: Option<usize>) -> Option<ListingView> {
        listing_of(color, cols, "Out of date: "@, 16, self.ood)
    }

    /// The list of orphaned packages, which starts where `:: orphans: ` ends.
    pub open spec fn orphans_listing(self, color: Colors, cols: Option<usize>) -> Option<
        ListingView,
    > {
        listing_of(color, cols, "Orphans: "@, 12, self.orphans)
    }

    /// All lists that are not empty.
    pub open spec fn all_listings(self, color: Colors, cols: Option<usize>) -> Seq<ListingView> {
        style::present(
            seq![
                self.missing_listing(color, cols),
                self.ood_listing(color, cols),
                self.orphans_listing(color, cols),
            ],
        )
    }
}

impl Warnings {
    /// Lists the names that the AUR does not know.
    pub fn missing(&self, color: Colors, cols: Option<usize>) -> (r: Option<Listing>)
        ensures
            text::option_view(r) == self@.missing_listing(color, cols),
    {
        list(color, cols, "Could not find packages: ", 28, &self.missing)
    }

    /// Lists the packages that are out of date.
    pub fn ood(&self, color: Colors, cols: Option<usize>) -> (r: Option<Listing>)
        ensures
            text::option_view(r) == self@.ood_listing(color, cols),
    {
        list(color, cols, "Out of date: ", 16, &self.ood)
    }

    /// Lists the packages that nobody looks after.
    pub fn orphans(&self, color: Colors, cols: Option<usize>) -> (r: Option<Listing>)
        ensures
            text::option_view(r) == self@.orphans_listing(color, cols),
    {
        list(color, cols, "Orphans: ", 12, &self.orphans)
    }

    /// All lists that are not empty.
    pub fn all(&self, color: Colors, cols: Option<usize>) -> (r: Vec<Listing>)
        ensures
            text::views(r@) == self@.all_listings(color, cols),
    {
        let ghost lists = seq![
            self@.missing_listing(color, cols),
            self@.ood_listing(color, cols),
            self@.orphans_listing(color, cols),
        ];
        let mut out: Vec<Listing> = Vec::new();
        proof {
            style::lemma_present_push(lists, 0);
            style::lemma_present_push(lists, 1);
            style::lemma_present_push(lists, 2);
            assert(lists.take(3) =~= lists);
        }
        assert(text::views(out@) =~= style::present(lists.take(0)));
        style::push_some(&mut out, self.missing(color, cols));
        assert(text::views(out@) =~= style::present(lists.take(1)));
        style::push_some(&mut out, self.ood(color, cols));
        assert(text::views(out@) =~= style::present(lists.take(2)));
        style::push_some(&mut out, self.orphans(color, cols));
        assert(text::views(out@) =~= style::present(lists.take(3)));
        out
    }
}

/// `raur_ext`'s `Package`: a package of the AUR as a `raur_ext::Cache` holds it.
#[verifier::external_type_specification]
#[verifier::external_body]
pub struct ExCachedPackage(raur_ext::Package);

/// The names of the packages in a `raur_ext::Cache`.
pub uninterp spec fn cached_names(cache: std::collections::HashSet<raur_ext::Package>) -> Set<
    Seq<char>,
>;

/// `HashSet::contains` on `raur_ext`'s `Cache`, whose packages hash and compare by name
/// alone: whether a package of the name is there.
#[verifier::external_body]
fn is_cached(cache: &raur_ext::Cache, name: &str) -> (r: bool)
    ensures
        r == cached_names(*cache).contains(name@),
{
    cache.contains(name)
}

/// The names among `pkgs` that are neither ignored nor known; `known` says of each
/// whether it is known.
pub open spec fn unknown_names(
    pkgs: Seq<Seq<char>>,
    known: Seq<bool>,
    ignore: Seq<Seq<char>>,
) -> Seq<Seq<char>> {
    text::marked(pkgs, known, false).filter(|name: Seq<char>| !ignore.contains(name))
}

proof fn lemma_unknown_push(
    pkgs: Seq<Seq<char>>,
    known: Seq<bool>,
    ignore: Seq<Seq<char>>,
    n: int,
)
    requires
        0 <= n < pkgs.len(),
    ensures
        unknown_names(pkgs.take(n + 1), known, ignore) == (if !ignore.contains(pkgs[n])
            && !known[n] {
            unknown_names(pkgs.take(n), known, ignore).push(pkgs[n])
        } else {
            unknown_names(pkgs.take(n), known, ignore)
        }),
{
    text::lemma_marked_push(pkgs, known, n, false);
    text::lemma_filter_push(
        text::marked(pkgs.take(n), known, false),
        pkgs[n],
        |name: Seq<char>| !ignore.contains(name),
    );
}

proof fn lemma_unknown_none(pkgs: Seq<Seq<char>>, known: Seq<bool>, ignore: Seq<Seq<char>>)
    ensures
        unknown_names(pkgs.take(0), known, ignore) == Seq::<Seq<char>>::empty(),
{
    reveal(Seq::filter);
    text::lemma_marked_none(pkgs, known, false);
}

/// The names of the packages that a test accepts and that are not ignored.
pub open spec fn flagged_names(
    pkgs: Seq<AurPackageView>,
    ignore: Seq<Seq<char>>,
    test: spec_fn(AurPackageView) -> bool,
) -> Seq<Seq<char>> {
    pkgs.filter(|pkg: AurPackageView| !ignore.contains(pkg.name) && test(pkg)).map_values(
        |pkg: AurPackageView| pkg.name,
    )
}

/// What there is to say about packages, given which of the names are known.
pub open spec fn warnings_of(
    pkgs: Seq<Seq<char>>,
    known: Seq<bool>,
    found: Seq<AurPackageView>,
    ignore: Seq<Seq<char>>,
) -> WarningsView {
    WarningsView {
        pkgs: found,
        missing: unknown_names(pkgs, known, ignore),
        ood: flagged_names(found, ignore, |pkg: AurPackageView| pkg.out_of_date is Some),
        orphans: flagged_names(found, ignore, |pkg: AurPackageView| pkg.maintainer is None),
    }
}

/// Sorts out what there is to say about packages, given which of the names are known.
pub fn sort_warnings(
    pkgs: &Vec<String>,
    known: &Vec<bool>,
    found: Vec<AurPackage>,
    ignore: &Vec<String>,
) -> (r: Warnings)
    requires
        known@.len() == pkgs@.len(),
    ensures
        r@ == warnings_of(
            text::views(pkgs@),
            known@,
            text::views(found@),
            text::views(ignore@),
        ),
{
    let ghost names = text::views(pkgs@);
    let ghost skip = text::views(ignore@);
    let mut missing: Vec<String> = Vec::new();
    proof {
        lemma_unknown_none(names, known@, skip);
    }
    assert(text::views(missing@) =~= unknown_names(names.take(0), known@, skip));
    for i in 0..pkgs.len()
        invariant
            names == text::views(pkgs@),
            skip == text::views(ignore@),
            known@.len() == pkgs@.len(),
            text::views(missing@) == unknown_names(names.take(i as int), known@, skip),
    {
        proof {
            lemma_unknown_push(names, known@, skip, i as int);
        }
        if !text::contains(ignore, pkgs[i].as_str()) && !known[i] {
            let name = pkgs[i].clone();
            proof {
                text::lemma_views_push(missing@, name);
            }
            missing.push(name);
        }
    }
    assert(names.take(pkgs@.len() as int) =~= names);
    let ghost all = text::views(found@);
    let ghost name = |pkg: AurPackageView| pkg.name;
    let ghost is_ood = |pkg: AurPackageView| pkg.out_of_date is Some;
    let ghost is_orphan = |pkg: AurPackageView| pkg.maintainer is None;
    let ghost tell_ood = |pkg: AurPackageView| !skip.contains(pkg.name) && is_ood(pkg);
    let ghost tell_orphan = |pkg: AurPackageView| !skip.contains(pkg.name) && is_orphan(pkg);
    let mut ood: Vec<String> = Vec::new();
    let mut orphans: Vec<String> = Vec::new();
    proof {
        reveal(Seq::filter);
    }
    assert(all.take(0) =~= Seq::<AurPackageView>::empty());
    assert(text::views(ood@) =~= all.take(0).filter(tell_ood).map_values(name));
    assert(text::views(orphans@) =~= all.take(0).filter(tell_orphan).map_values(name));
    for i in 0..found.len()
        invariant
            all == text::views(found@),
            skip == text::views(ignore@),
            name == (|pkg: AurPackageView| pkg.name),
            is_ood == (|pkg: AurPackageView| pkg.out_of_date is Some),
            is_orphan == (|pkg: AurPackageView| pkg.maintainer is None),
            tell_ood == (|pkg: AurPackageView| !skip.contains(pkg.name) && is_ood(pkg)),
            tell_orphan == (|pkg: AurPackageView| !skip.contains(pkg.name) && is_orphan(pkg)),
            text::views(ood@) == all.take(i as int).filter(tell_ood).map_values(name),
            text::views(orphans@) == all.take(i as int).filter(tell_orphan).map_values(name),
    {
        let pkg = &found[i];
        proof {
            text::lemma_take_push(all, i as int);
            let before = all.take(i as int);
            text::lemma_filter_push(before, pkg@, tell_ood);
            text::lemma_filter_push(before, pkg@, tell_orphan);
            assert(before.filter(tell_ood).push(pkg@).map_values(name) =~= before.filter(
                tell_ood,
            ).map_values(name).push(pkg@.name));
            assert(before.filter(tell_orphan).push(pkg@).map_values(name) =~= before.filter(
                tell_orphan,
            ).map_values(name).push(pkg@.name));
        }
        if !text::contains(ignore, pkg.name.as_str()) {
            if pkg.out_of_date.is_some() {
                let told = pkg.name.clone();
                proof {
                    text::lemma_views_push(ood@, told);
                }
                ood.push(told);
            }
            if pkg.maintainer.is_none() {
                let told = pkg.name.clone();
                proof {
                    text::lemma_views_push(orphans@, told);
                }
                orphans.push(told);
            }
        }
    }
    assert(all.take(found@.len() as int) =~= all);
    Warnings { pkgs: found, missing, ood, orphans }
}

/// Sorts out what there is to say about packages after a request has filled the cache;
/// `aur_pkgs` are the packages that the request gave.
pub fn cache_info_with_warnings(
    cache: &raur_ext::Cache,
    aur_pkgs: Vec<AurPackage>,
    pkgs: &Vec<String>,
    ignore: &Vec<String>,
) -> (r: Warnings)
    ensures
        r@ == warnings_of(
            text::views(pkgs@),
            text::views(pkgs@).map_values(|name: Seq<char>| cached_names(*cache).contains(name)),
            text::views(aur_pkgs@),
            text::views(ignore@),
        ),
{
    let ghost names = text::views(pkgs@);
    let ghost facts = names.map_values(|name: Seq<char>| cached_names(*cache).contains(name));
    let mut known: Vec<bool> = Vec::new();
    for i in 0..pkgs.len()
        invariant
            names == text::views(pkgs@),
            facts == names.map_values(|name: Seq<char>| cached_names(*cache).contains(name)),
            known@ == facts.take(i as int),
    {
        proof {
            text::lemma_take_push(facts, i as int);
        }
        known.push(is_cached(cache, pkgs[i].as_str()));
    }
    assert(facts.take(pkgs@.len() as int) =~= facts);
    sort_warnings(pkgs, &known, aur_pkgs, ignore)
}

/// An ignored package is never warned about.
pub proof fn law_ignored_is_silent(
    pkgs: Seq<Seq<char>>,
    known: Seq<bool>,
    found: Seq<AurPackageView>,
    ignore: Seq<Seq<char>>,
    name: Seq<char>,
)
    requires
        ignore.contains(name),
        known.len() == pkgs.len(),
    ensures
        ({
            let warnings = warnings_of(pkgs, known, found, ignore);
            &&& !warnings.missing.contains(name)
            &&& !warnings.ood.contains(name)
            &&& !warnings.orphans.contains(name)
        }),
{
    law_missing_is_unknown(pkgs, known, ignore, name);
    lemma_flagged(found, ignore, |pkg: AurPackageView| pkg.out_of_date is Some, name);
    lemma_flagged(found, ignore, |pkg: AurPackageView| pkg.maintainer is None, name);
}

proof fn lemma_flagged(
    pkgs: Seq<AurPackageView>,
    ignore: Seq<Seq<char>>,
    test: spec_fn(AurPackageView) -> bool,
    name: Seq<char>,
)
    requires
        ignore.contains(name),
    ensures
        !flagged_names(pkgs, ignore, test).contains(name),
    decreases pkgs.len(),
{
    let keep = |pkg: AurPackageView| !ignore.contains(pkg.name) && test(pkg);
    reveal(Seq::filter);
    if pkgs.len() > 0 {
        let init = pkgs.drop_last();
        lemma_flagged(init, ignore, test, name);
        assert(pkgs =~= init.push(pkgs.last()));
        text::lemma_filter_push(init, pkgs.last(), keep);
        let before = flagged_names(init, ignore, test);
        let all = flagged_names(pkgs, ignore, test);
        if all.contains(name) {
            let k = choose|k: int| 0 <= k < all.len() && all[k] == name;
            if k < before.len() {
                assert(before[k] == name);
            }
        }
    }
}

/// A name is told to be missing exactly where it was asked for, is not known and is not
/// ignored.
pub proof fn law_missing_is_unknown(
    pkgs: Seq<Seq<char>>,
    known: Seq<bool>,
    ignore: Seq<Seq<char>>,
    name: Seq<char>,
)
    requires
        known.len() == pkgs.len(),
    ensures
        unknown_names(pkgs, known, ignore).contains(name) <==> !ignore.contains(name) && exists|
            i: int,
        | 0 <= i < pkgs.len() && #[trigger] pkgs[i] == name && !known[i],
{
    lemma_missing(pkgs, known, ignore, name, pkgs.len() as int);
    assert(pkgs.take(pkgs.len() as int) =~= pkgs);
}

proof fn lemma_missing(
    pkgs: Seq<Seq<char>>,
    known: Seq<bool>,
    ignore: Seq<Seq<char>>,
    name: Seq<char>,
    n: int,
)
    requires
        known.len() == pkgs.len(),
        0 <= n <= pkgs.len(),
    ensures
        unknown_names(pkgs.take(n), known, ignore).contains(name) <==> !ignore.contains(name)
            && exists|i: int| 0 <= i < n && #[trigger] pkgs[i] == name && !known[i],
    decreases n,
{
    lemma_unknown_none(pkgs, known, ignore);
    if n > 0 {
        lemma_missing(pkgs, known, ignore, name, n - 1);
        lemma_unknown_push(pkgs, known, ignore, n - 1);
        let less = unknown_names(pkgs.take(n - 1), known, ignore);
        let more = unknown_names(pkgs.take(n), known, ignore);
        if less.contains(name) {
            let k = choose|k: int| 0 <= k < less.len() && less[k] == name;
            assert(more[k] == name);
        }
        if more.contains(name) && !less.contains(name) {
            let k = choose|k: int| 0 <= k < more.len() && more[k] == name;
            if k < less.len() {
                assert(less[k] == name);
            }
            assert(pkgs[n - 1] == name);
        }
        if pkgs[n - 1] == name && !known[n - 1] && !ignore.contains(name) {
            assert(more[less.len() as int] == name);
        }
        if exists|i: int| 0 <= i < n && #[trigger] pkgs[i] == name && !known[i] {
            let i = choose|i: int| 0 <= i < n && #[trigger] pkgs[i] == name && !known[i];
            if i < n - 1 {
                assert(pkgs[i] == name && !known[i]);
            }
        }
    }
}

proof fn lemma_flagged_exactly(
    pkgs: Seq<AurPackageView>,
    ignore: Seq<Seq<char>>,
    test: spec_fn(AurPackageView) -> bool,
    name: Seq<char>,
)
    ensures
        flagged_names(pkgs, ignore, test).contains(name) <==> !ignore.contains(name) && exists|i: int|
            0 <= i < pkgs.len() && (#[trigger] pkgs[i]).name == name && test(pkgs[i]),
{
    let keep = |pkg: AurPackageView| !ignore.contains(pkg.name) && test(pkg);
    let called = |pkg: AurPackageView| pkg.name;
    text::lemma_filter_mapped(pkgs, keep, called, name);
    if flagged_names(pkgs, ignore, test).contains(name) {
        let i = choose|i: int|
            0 <= i < pkgs.len() && keep(#[trigger] pkgs[i]) && called(pkgs[i]) == name;
        assert(pkgs[i].name == name && test(pkgs[i]));
    }
    if !ignore.contains(name) && exists|i: int|
        0 <= i < pkgs.len() && (#[trigger] pkgs[i]).name == name && test(pkgs[i]) {
        let i = choose|i: int|
            0 <= i < pkgs.len() && (#[trigger] pkgs[i]).name == name && test(pkgs[i]);
        assert(keep(pkgs[i]) && called(pkgs[i]) == name);
    }
}

/// The user is warned exactly about what deserves it and is not ignored: a name that was
/// asked for and that nobody knows, a package that was found and is flagged out of date,
/// and a package that was found and has no maintainer. All packages that were found are
/// handed on, warned about or not.
pub proof fn law_warned_about(
    pkgs: Seq<Seq<char>>,
    known: Seq<bool>,
    found: Seq<AurPackageView>,
    ignore: Seq<Seq<char>>,
    name: Seq<char>,
)
    requires
        known.len() == pkgs.len(),
    ensures
        ({
            let warnings = warnings_of(pkgs, known, found, ignore);
            &&& warnings.pkgs == found
            &&& warnings.missing.contains(name) <==> !ignore.contains(name) && exists|i: int|
                0 <= i < pkgs.len() && #[trigger] pkgs[i] == name && !known[i]
            &&& warnings.ood.contains(name) <==> !ignore.contains(name) && exists|i: int|
                0 <= i < found.len() && (#[trigger] found[i]).name == name
                    && found[i].out_of_date is Some
            &&& warnings.orphans.contains(name) <==> !ignore.contains(name) && exists|i: int|
                0 <= i < found.len() && (#[trigger] found[i]).name == name
                    && found[i].maintainer is None
        }),
{
    law_missing_is_unknown(pkgs, known, ignore, name);
    lemma_flagged_exactly(found, ignore, |pkg: AurPackageView| pkg.out_of_date is Some, name);
    lemma_flagged_exactly(found, ignore, |pkg: AurPackageView| pkg.maintainer is None, name);
}

/// The warnings keep the order of what was asked for and of what was found: those about two
/// runs of packages are those about the first and then those about the second.
pub proof fn law_warnings_in_order(
    pkgs: (Seq<Seq<char>>, Seq<Seq<char>>),
    known: (Seq<bool>, Seq<bool>),
    found: (Seq<AurPackageView>, Seq<AurPackageView>),
    ignore: Seq<Seq<char>>,
)
    requires
        known.0.len() == pkgs.0.len(),
        known.1.len() == pkgs.1.len(),
    ensures
        ({
            let first = warnings_of(pkgs.0, known.0, found.0, ignore);
            let second = warnings_of(pkgs.1, known.1, found.1, ignore);
            let both = warnings_of(pkgs.0 + pkgs.1, known.0 + known.1, found.0 + found.1, ignore);
            &&& both.missing == first.missing + second.missing
            &&& both.ood == first.ood + second.ood
            &&& both.orphans == first.orphans + second.orphans
        }),
{
    text::law_marked_in_order(pkgs, known, false);
    text::lemma_filter_mapped_add(
        text::marked(pkgs.0, known.0, false),
        text::marked(pkgs.1, known.1, false),
        |name: Seq<char>| !ignore.contains(name),
        |name: Seq<char>| name,
    );
    let is_ood = |pkg: AurPackageView| pkg.out_of_date is Some;
    let is_orphan = |pkg: AurPackageView| pkg.maintainer is None;
    text::lemma_filter_mapped_add(
        found.0,
        found.1,
        |pkg: AurPackageView| !ignore.contains(pkg.name) && is_ood(pkg),
        |pkg: AurPackageView| pkg.name,
    );
    text::lemma_filter_mapped_add(
        found.0,
        found.1,
        |pkg: AurPackageView| !ignore.contains(pkg.name) && is_orphan(pkg),
        |pkg: AurPackageView| pkg.name,
    );
}

/// There is a list of each kind exactly where there are names of that kind, and it lists
/// those names, beginning where its heading ends: after two colons, a space and the title.
pub proof fn law_lists(warnings: WarningsView, color: Colors, cols: Option<usize>)
    ensures
        ({
            let missing = warnings.missing_listing(color, cols);
            let ood = warnings.ood_listing(color, cols);
            let orphans = warnings.orphans_listing(color, cols);
            &&& missing is Some <==> warnings.missing.len() > 0
            &&& ood is Some <==> warnings.ood.len() > 0
            &&& orphans is Some <==> warnings.orphans.len() > 0
            &&& missing matches Some(list) ==> list.items == warnings.missing && list.start
                == ":: could not find packages: "@.len() && list.cols == cols
            &&& ood matches Some(list) ==> list.items == warnings.ood && list.start
                == ":: out of date: "@.len() && list.cols == cols
            &&& orphans matches Some(list) ==> list.items == warnings.orphans && list.start
                == ":: orphans: "@.len() && list.cols == cols
        }),
{
    reveal_strlit(":: could not find packages: ");
    reveal_strlit(":: out of date: ");
    reveal_strlit(":: orphans: ");
}

/// Nothing that there is to warn about is kept back: there is a list for each kind of which
/// there are names, first what is missing, then what is out of date, then the orphans.
pub proof fn law_all_lists(warnings: WarningsView, color: Colors, cols: Option<usize>)
    ensures
        ({
            let all = warnings.all_listings(color, cols);
            let a = if warnings.missing.len() > 0 {
                1int
            } else {
                0
            };
            let b = a + if warnings.ood.len() > 0 {
                1int
            } else {
                0
            };
            let c = b + if warnings.orphans.len() > 0 {
                1int
            } else {
                0
            };
            &&& all.len() == c
            &&& warnings.missing.len() > 0 ==> all[0].items == warnings.missing
            &&& warnings.ood.len() > 0 ==> all[a].items == warnings.ood
            &&& warnings.orphans.len() > 0 ==> all[b].items == warnings.orphans
        }),
{
    let lists = seq![
        warnings.missing_listing(color, cols),
        warnings.ood_listing(color, cols),
        warnings.orphans_listing(color, cols),
    ];
    style::lemma_present_push(lists, 0);
    style::lemma_present_push(lists, 1);
    style::lemma_present_push(lists, 2);
    assert(lists.take(3) =~= lists);
}

} // verus!

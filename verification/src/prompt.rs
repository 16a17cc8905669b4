//! Questions that come up while dependencies are resolved.
use vstd::prelude::*;

use crate::text;

verus! {

/// The names with their numbers before them, counted from one.
pub open spec fn numbered(names: Seq<Seq<char>>) -> Seq<char>
    decreases names.len(),
{
    if names.len() == 0 {
        Seq::empty()
    } else {
        numbered(names.drop_last()) + (text::decimal(names.len()) + ") "@ + names.last() + "  "@)
    }
}

fn number(names: &Vec<String>) -> (r: String)
    ensures
        r@ == numbered(text::views(names@)),
{
    let ghost all = text::views(names@);
    let mut out = String::new();
    assert(all.take(0) =~= Seq::<Seq<char>>::empty());
    for i in 0..names.len()
        invariant
            all == text::views(names@),
            out@ == numbered(all.take(i as int)),
    {
        proof {
            text::lemma_take_push(all, i as int);
        }
        let ghost before = out@;
        out.append(text::length_text(i + 1).as_str());
        out.append(") ");
        out.append(names[i].as_str());
        out.append("  ");
        assert(out@ =~= before + (text::decimal((i + 1) as nat) + ") "@ + all[i as int] + "  "@));
    }
    assert(all.take(names@.len() as int) =~= all);
    out
}

/// The question which of several packages is to provide a dependency.
pub open spec fn provider_question(dep: Seq<char>, pkgs: Seq<Seq<char>>) -> Seq<char> {
    "\nThere are "@ + text::decimal(pkgs.len()) + " providers avaliable for "@ + dep
        + ":\nRepository AUR:\n    "@ + numbered(pkgs)
}

/// Asks which of several packages is to provide a dependency.
pub fn ask_provider(dep: &str, pkgs: &Vec<String>) -> (r: String)
    ensures
        r@ == provider_question(dep@, text::views(pkgs@)),
{
    let mut out = "\nThere are ".to_owned();
    out.append(text::length_text(pkgs.len()).as_str());
    out.append(" providers avaliable for ");
    out.append(dep);
    out.append(":\nRepository AUR:\n    ");
    out.append(number(pkgs).as_str());
    out
}

/// The part of a group of packages that one repository holds.
pub struct Group {
    pub db: String,
    /// The name of the repository as the user is to see it.
    pub title: String,
    /// The name of the group.
    pub name: String,
    pub packages: Vec<String>,
}

#[verifier::ext_equal]
pub struct GroupView {
    pub db: Seq<char>,
    pub title: Seq<char>,
    pub name: Seq<char>,
    pub packages: Seq<Seq<char>>,
}

impl View for Group {
    type V = GroupView;

    open spec fn view(&self) -> GroupView {
        GroupView {
            db: self.db@,
            title: self.title@,
            name: self.name@,
            packages: text::views(self.packages@),
        }
    }
}

/// How many packages the groups have.
pub open spec fn total(groups: Seq<GroupView>) -> nat
    decreases groups.len(),
{
    if groups.len() == 0 {
        0
    } else {
        total(groups.drop_last()) + groups.last().packages.len()
    }
}

/// The repository that was told last before the `i`th group.
pub open spec fn repo_before(groups: Seq<GroupView>, i: int) -> Seq<char> {
    if i == 0 {
        Seq::empty()
    } else {
        groups[i - 1].db
    }
}

/// The packages of the groups, each group numbered by itself. A repository is told where
/// it is another than before.
pub open spec fn group_texts(groups: Seq<GroupView>) -> Seq<char>
    decreases groups.len(),
{
    if groups.len() == 0 {
        Seq::empty()
    } else {
        let group = groups.last();
        let head = if group.db != repo_before(groups, groups.len() - 1) {
            "Repository "@ + group.title + "\n    "@
        } else {
            Seq::empty()
        };
        group_texts(groups.drop_last()) + head + numbered(group.packages)
    }
}

/// The question which packages of a group are wanted.
pub open spec fn group_question(groups: Seq<GroupView>) -> Seq<char> {
    "\nThere are "@ + text::decimal(total(groups)) + " members in group "@ + groups[0].name
        + ":\n"@ + group_texts(groups) + "\nEnter a selection (default=all): "@
}

proof fn lemma_total_grows(groups: Seq<GroupView>, n: int)
    requires
        0 <= n <= groups.len(),
    ensures
        total(groups.take(n)) <= total(groups),
    decreases groups.len(),
{
    if n < groups.len() {
        lemma_total_grows(groups.drop_last(), n);
        assert(groups.drop_last().take(n) =~= groups.take(n));
    } else {
        assert(groups.take(n) =~= groups);
    }
}

/// Counts the packages of the groups.
pub fn count_members(groups: &Vec<Group>) -> (r: usize)
    requires
        total(text::views(groups@)) <= usize::MAX,
    ensures
        r == total(text::views(groups@)),
{
    let ghost all = text::views(groups@);
    let mut n: usize = 0;
    assert(all.take(0) =~= Seq::<GroupView>::empty());
    for i in 0..groups.len()
        invariant
            all == text::views(groups@),
            total(all) <= usize::MAX,
            n == total(all.take(i as int)),
    {
        proof {
            text::lemma_take_push(all, i as int);
            lemma_total_grows(all, i + 1);
        }
        assert(all[i as int].packages.len() == groups@[i as int].packages@.len());
        n = n + groups[i].packages.len();
    }
    assert(all.take(groups@.len() as int) =~= all);
    n
}

/// Asks which packages of a group are wanted.
pub fn ask_group(groups: &Vec<Group>) -> (r: String)
    requires
        groups@.len() > 0,
        total(text::views(groups@)) <= usize::MAX,
    ensures
        r@ == group_question(text::views(groups@)),
{
    let ghost all = text::views(groups@);
    let mut out = "\nThere are ".to_owned();
    out.append(text::length_text(count_members(groups)).as_str());
    out.append(" members in group ");
    out.append(groups[0].name.as_str());
    out.append(":\n");
    assert(all[0] == groups[0]@);
    let ghost head = out@;
    let mut repo = String::new();
    assert(all.take(0) =~= Seq::<GroupView>::empty());
    assert(out@ =~= head + group_texts(all.take(0)));
    for i in 0..groups.len()
        invariant
            all == text::views(groups@),
            repo@ == repo_before(all, i as int),
            out@ == head + group_texts(all.take(i as int)),
    {
        let group = &groups[i];
        proof {
            text::lemma_take_push(all, i as int);
            assert(repo_before(all.take(i + 1), i as int) == repo_before(all, i as int));
        }
        assert(all[i as int] == group@);
        let ghost before = out@;
        if !text::same(group.db.as_str(), repo.as_str()) {
            repo = group.db.clone();
            out.append("Repository ");
            out.append(group.title.as_str());
            out.append("\n    ");
        }
        out.append(number(&group.packages).as_str());
        assert(out@ =~= head + group_texts(all.take(i + 1)));
    }
    assert(all.take(groups@.len() as int) =~= all);
    out.append("\nEnter a selection (default=all): ");
    out
}

/// The packages of the groups one after the other: the number of the group and the
/// number of the package in it.
pub open spec fn members(groups: Seq<GroupView>) -> Seq<(int, int)>
    decreases groups.len(),
{
    if groups.len() == 0 {
        Seq::empty()
    } else {
        members(groups.drop_last()) + Seq::new(
            groups.last().packages.len(),
            |k: int| (groups.len() - 1, k),
        )
    }
}

proof fn lemma_members(groups: Seq<GroupView>)
    ensures
        members(groups).len() == total(groups),
    decreases groups.len(),
{
    if groups.len() > 0 {
        lemma_members(groups.drop_last());
    }
}

/// Finds the packages that were chosen. `chosen` says of each package, all groups
/// counted through, whether it was.
pub fn select_members(groups: &Vec<Group>, chosen: &Vec<bool>) -> (r: Vec<(usize, usize)>)
    requires
        chosen@.len() == total(text::views(groups@)),
    ensures
        r@.map_values(|at: (usize, usize)| (at.0 as int, at.1 as int)) == text::marked(
            members(text::views(groups@)),
            chosen@,
            true,
        ),
{
    let ghost all = text::views(groups@);
    let ghost plain = |at: (usize, usize)| (at.0 as int, at.1 as int);
    let mut out: Vec<(usize, usize)> = Vec::new();
    let mut n: usize = 0;
    assert(all.take(0) =~= Seq::<GroupView>::empty());
    assert(members(all.take(0)).take(0) =~= members(all.take(0)));
    proof {
        text::lemma_marked_none(members(all.take(0)), chosen@, true);
    }
    assert(out@.map_values(plain) =~= text::marked(members(all.take(0)), chosen@, true));
    for i in 0..groups.len()
        invariant
            all == text::views(groups@),
            plain == (|at: (usize, usize)| (at.0 as int, at.1 as int)),
            chosen@.len() == total(all),
            n == total(all.take(i as int)),
            out@.map_values(plain) == text::marked(members(all.take(i as int)), chosen@, true),
    {
        let group = &groups[i];
        let ghost before = members(all.take(i as int));
        let ghost own = Seq::new(group@.packages.len(), |k: int| (i as int, k));
        let ghost start = n as int;
        proof {
            text::lemma_take_push(all, i as int);
            lemma_total_grows(all, i + 1);
            lemma_members(all.take(i as int));
            assert(all[i as int] == group@);
            assert(members(all.take(i + 1)) =~= before + own);
        }
        assert(before + own.take(0) =~= before);
        for j in 0..group.packages.len()
            invariant
                plain == (|at: (usize, usize)| (at.0 as int, at.1 as int)),
                own == Seq::new(group@.packages.len(), |k: int| (i as int, k)),
                start == before.len(),
                start + group@.packages.len() <= chosen@.len(),
                n == start + j,
                out@.map_values(plain) == text::marked(before + own.take(j as int), chosen@, true),
        {
            let ghost less = before + own.take(j as int);
            let ghost more = before + own.take(j + 1);
            proof {
                assert(more.take(less.len() as int) =~= less);
                assert(more.take(less.len() as int + 1) =~= more);
                text::lemma_marked_push(more, chosen@, less.len() as int, true);
            }
            let ghost prev = out@;
            if chosen[n] {
                out.push((i, j));
                assert(out@.map_values(plain) =~= prev.map_values(plain).push((i as int, j as int)));
            }
            assert(n < chosen.len());
            n = n + 1;
        }
        assert(own.take(group.packages@.len() as int) =~= own);
    }
    assert(all.take(groups@.len() as int) =~= all);
    out
}

/// Where there is but one group, a package is chosen by the number that it is shown with.
pub proof fn law_one_group(group: GroupView, k: int)
    requires
        0 <= k < group.packages.len(),
    ensures
        members(seq![group])[k] == (0int, k),
{
    assert(seq![group].drop_last() =~= Seq::<GroupView>::empty());
    assert(members(Seq::<GroupView>::empty()) =~= Seq::<(int, int)>::empty());
}

/// How many packages come before the `g`th group.
pub open spec fn before(groups: Seq<GroupView>, g: int) -> nat {
    total(groups.take(g))
}

/// The packages are counted through all groups: the `k`th of a group comes after all that
/// are in the groups before it, and nothing else is counted.
pub proof fn law_members(groups: Seq<GroupView>, g: int, k: int)
    requires
        0 <= g < groups.len(),
        0 <= k < groups[g].packages.len(),
    ensures
        before(groups, g) + k < members(groups).len(),
        members(groups)[before(groups, g) + k] == (g, k),
        before(groups, g + 1) == before(groups, g) + groups[g].packages.len(),
        before(groups, 0) == 0,
        members(groups).len() == before(groups, groups.len() as int),
    decreases groups.len(),
{
    let init = groups.drop_last();
    lemma_members(groups);
    lemma_members(init);
    assert(groups.take(groups.len() as int) =~= groups);
    assert(groups.take(0) =~= Seq::<GroupView>::empty());
    text::lemma_take_push(groups, g);
    if g < init.len() {
        law_members(init, g, k);
        assert(init.take(g) =~= groups.take(g));
        assert(init[g] == groups[g]);
        lemma_total_grows(groups, g + 1);
    } else {
        assert(groups.take(g) =~= init);
    }
}

/// Exactly the packages are selected that were chosen, by the number that counts through
/// all groups.
pub proof fn law_selected(groups: Seq<GroupView>, chosen: Seq<bool>, g: int, k: int)
    requires
        chosen.len() == total(groups),
        0 <= g < groups.len(),
        0 <= k < groups[g].packages.len(),
    ensures
        text::marked(members(groups), chosen, true).contains((g, k)) <==> chosen[(before(groups, g)
            + k) as int],
{
    law_members(groups, g, k);
    let n = before(groups, g) + k;
    text::law_marked(members(groups), chosen, true, (g, k));
    if text::marked(members(groups), chosen, true).contains((g, k)) {
        let i = choose|i: int|
            0 <= i < members(groups).len() && #[trigger] members(groups)[i] == (g, k) && chosen[i]
                == true;
        lemma_once(groups, i, n as int);
    }
    if chosen[n as int] {
        assert(members(groups)[n as int] == (g, k) && chosen[n as int] == true);
    }
}

proof fn lemma_once(groups: Seq<GroupView>, i: int, j: int)
    requires
        0 <= i < members(groups).len(),
        0 <= j < members(groups).len(),
        members(groups)[i] == members(groups)[j],
    ensures
        i == j,
    decreases groups.len(),
{
    if groups.len() > 0 {
        let init = members(groups.drop_last());
        lemma_group_number(groups.drop_last());
        if i < init.len() && j < init.len() {
            lemma_once(groups.drop_last(), i, j);
        } else if i < init.len() {
            assert(init[i].0 < groups.len() - 1);
        } else if j < init.len() {
            assert(init[j].0 < groups.len() - 1);
        }
    }
}

proof fn lemma_group_number(groups: Seq<GroupView>)
    ensures
        forall|i: int|
            0 <= i < members(groups).len() ==> (#[trigger] members(groups)[i]).0 < groups.len(),
    decreases groups.len(),
{
    if groups.len() > 0 {
        lemma_group_number(groups.drop_last());
        let init = members(groups.drop_last());
        assert forall|i: int| 0 <= i < members(groups).len() implies (
        #[trigger] members(groups)[i]).0 < groups.len() by {
            if i < init.len() {
                assert(members(groups)[i] == init[i]);
            }
        }
    }
}

/// Names are shown with their numbers, counted from one, in order.
pub proof fn law_numbered(names: Seq<Seq<char>>, name: Seq<char>)
    ensures
        numbered(names.push(name)) == numbered(names) + text::decimal(names.len() + 1) + ") "@
            + name + "  "@,
        names.len() == 0 ==> numbered(names).len() == 0,
{
    assert(names.push(name).drop_last() =~= names);
    assert(numbered(names.push(name)) =~= numbered(names) + text::decimal(names.len() + 1) + ") "@
        + name + "  "@);
}

/// A group is told behind the others, under its repository exactly where that is another
/// than the one told last.
pub proof fn law_group_told(groups: Seq<GroupView>, group: GroupView)
    ensures
        ({
            let told = group_texts(groups.push(group));
            let same = if groups.len() == 0 {
                group.db.len() == 0
            } else {
                groups.last().db == group.db
            };
            &&& same ==> told == group_texts(groups) + numbered(group.packages)
            &&& !same ==> told == group_texts(groups) + "Repository "@ + group.title + "\n    "@
                + numbered(group.packages)
            &&& total(groups.push(group)) == total(groups) + group.packages.len()
        }),
{
    let all = groups.push(group);
    assert(all.drop_last() =~= groups);
    assert(repo_before(all, groups.len() as int) =~= (if groups.len() == 0 {
        Seq::empty()
    } else {
        groups.last().db
    }));
    let told = group_texts(all);
    if group.db == repo_before(all, groups.len() as int) {
        assert(told =~= group_texts(groups) + numbered(group.packages));
    } else {
        assert(told =~= group_texts(groups) + "Repository "@ + group.title + "\n    "@ + numbered(
            group.packages,
        ));
    }
    if groups.len() == 0 && group.db.len() == 0 {
        assert(group.db =~= Seq::<char>::empty());
    }
}

/// A question about providers tells how many there are and for what, and then all of them.
pub proof fn law_provider_question(dep: Seq<char>, pkgs: Seq<Seq<char>>)
    ensures
        ({
            let asked = provider_question(dep, pkgs);
            let list = numbered(pkgs);
            let head = "\nThere are "@ + text::decimal(pkgs.len()) + " providers avaliable for "@
                + dep + ":\n"@;
            &&& head.is_prefix_of(asked)
            &&& asked.skip(asked.len() - list.len()) == list
        }),
{
    reveal_strlit(":\nRepository AUR:\n    ");
    reveal_strlit(":\n");
    let asked = provider_question(dep, pkgs);
    let list = numbered(pkgs);
    let head = "\nThere are "@ + text::decimal(pkgs.len()) + " providers avaliable for "@ + dep
        + ":\n"@;
    assert(asked.take(head.len() as int) =~= head);
    assert(asked.skip(asked.len() - list.len()) =~= list);
}

/// A question about a group tells how many packages it has in all repositories together and
/// what it is called, and then all of them, group after group.
pub proof fn law_group_question(groups: Seq<GroupView>)
    requires
        groups.len() > 0,
    ensures
        ({
            let asked = group_question(groups);
            let head = "\nThere are "@ + text::decimal(members(groups).len())
                + " members in group "@ + groups[0].name + ":\n"@;
            let told = group_texts(groups);
            &&& head.is_prefix_of(asked)
            &&& asked.subrange(head.len() as int, (head.len() + told.len()) as int) == told
            &&& asked.len() > head.len() + told.len()
        }),
{
    reveal_strlit("\nEnter a selection (default=all): ");
    lemma_members(groups);
    let asked = group_question(groups);
    let head = "\nThere are "@ + text::decimal(members(groups).len()) + " members in group "@
        + groups[0].name + ":\n"@;
    let told = group_texts(groups);
    assert(asked.take(head.len() as int) =~= head);
    assert(asked.subrange(head.len() as int, (head.len() + told.len()) as int) =~= told);
}

} // verus!

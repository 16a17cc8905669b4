//! The command line of the package manager.
use vstd::prelude::*;

use crate::text;

verus! {

/// An option, with its value where it has one.
pub struct Arg {
    pub key: String,
    pub value: Option<String>,
}

#[verifier::ext_equal]
pub struct ArgView {
    pub key: Seq<char>,
    pub value: Option<Seq<char>>,
}

impl View for Arg {
    type V = ArgView;

    open spec fn view(&self) -> ArgView {
        ArgView { key: self.key@, value: text::option_view(self.value) }
    }
}

impl Clone for Arg {
    fn clone(&self) -> (r: Self)
        ensures
            r@ == self@,
    {
        let value = match &self.value {
            Some(value) => Some(value.clone()),
            None => None,
        };
        Arg { key: self.key.clone(), value }
    }
}

/// An operation with its options and its targets.
pub struct Args {
    pub op: String,
    pub args: Vec<Arg>,
    pub targets: Vec<String>,
}

#[verifier::ext_equal]
pub struct ArgsView {
    pub op: Seq<char>,
    pub args: Seq<ArgView>,
    pub targets: Seq<Seq<char>>,
}

impl View for Args {
    type V = ArgsView;

    open spec fn view(&self) -> ArgsView {
        ArgsView { op: self.op@, args: text::views(self.args@), targets: text::views(self.targets@) }
    }
}

/// The test for an option that goes by either of two names.
pub open spec fn called(short: Seq<char>, long: Seq<char>) -> spec_fn(ArgView) -> bool {
    |arg: ArgView| arg.key == short || arg.key == long
}

impl ArgsView {
    /// How many options go by either name.
    pub open spec fn count(self, short: Seq<char>, long: Seq<char>) -> nat {
        self.args.filter(called(short, long)).len()
    }

    /// Whether an option goes by either name.
    pub open spec fn has_arg(self, short: Seq<char>, long: Seq<char>) -> bool {
        exists|i: int| 0 <= i < self.args.len() && called(short, long)(#[trigger] self.args[i])
    }

    pub open spec fn with_op(self, op: Seq<char>) -> ArgsView {
        ArgsView { op, ..self }
    }

    /// One more option, without a value.
    pub open spec fn with_arg(self, key: Seq<char>) -> ArgsView {
        ArgsView { args: self.args.push(ArgView { key, value: None }), ..self }
    }

    /// The same option `n` times more, without a value.
    pub open spec fn with_args(self, key: Seq<char>, n: nat) -> ArgsView {
        ArgsView {
            args: self.args + Seq::new(n, |i: int| ArgView { key, value: None }),
            ..self
        }
    }

    /// One more option, with a value.
    pub open spec fn with_value(self, key: Seq<char>, value: Seq<char>) -> ArgsView {
        ArgsView { args: self.args.push(ArgView { key, value: Some(value) }), ..self }
    }

    /// No option of that name.
    pub open spec fn without(self, key: Seq<char>) -> ArgsView {
        ArgsView { args: self.args.filter(|arg: ArgView| arg.key != key), ..self }
    }

    pub open spec fn with_targets(self, targets: Seq<Seq<char>>) -> ArgsView {
        ArgsView { targets, ..self }
    }
}

fn copy_args(items: &Vec<Arg>) -> (r: Vec<Arg>)
    ensures
        text::views(r@) == text::views(items@),
{
    let mut out: Vec<Arg> = Vec::new();
    for i in 0..items.len()
        invariant
            text::views(out@) == text::views(items@).take(i as int),
    {
        let arg = items[i].clone();
        proof {
            text::lemma_views_push(out@, arg);
            text::lemma_take_push(text::views(items@), i as int);
        }
        out.push(arg);
    }
    assert(text::views(items@).take(items@.len() as int) =~= text::views(items@));
    out
}

impl Clone for Args {
    fn clone(&self) -> (r: Self)
        ensures
            r@ == self@,
    {
        Args {
            op: self.op.clone(),
            args: copy_args(&self.args),
            targets: text::copy_texts(&self.targets),
        }
    }
}

impl Args {
    /// Counts the options that go by either name.
    pub fn count(&self, short: &str, long: &str) -> (r: usize)
        ensures
            r == self@.count(short@, long@),
    {
        let mut n: usize = 0;
        let ghost all = text::views(self.args@);
        let ghost test = called(short@, long@);
        proof {
            reveal(Seq::filter);
        }
        assert(all.take(0) =~= Seq::<ArgView>::empty());
        for i in 0..self.args.len()
            invariant
                all == text::views(self.args@),
                test == called(short@, long@),
                n == all.take(i as int).filter(test).len(),
                n <= i,
        {
            proof {
                text::lemma_take_push(all, i as int);
                text::lemma_filter_push(all.take(i as int), all[i as int], test);
            }
            if text::same(self.args[i].key.as_str(), short) || text::same(
                self.args[i].key.as_str(),
                long,
            ) {
                n = n + 1;
            }
        }
        assert(all.take(self.args@.len() as int) =~= all);
        n
    }

    /// Whether an option goes by either name.
    pub fn has_arg(&self, short: &str, long: &str) -> (r: bool)
        ensures
            r == self@.has_arg(short@, long@),
    {
        for i in 0..self.args.len()
            invariant
                forall|j: int|
                    0 <= j < i ==> !called(short@, long@)(#[trigger] self@.args[j]),
        {
            if text::same(self.args[i].key.as_str(), short) || text::same(
                self.args[i].key.as_str(),
                long,
            ) {
                assert(called(short@, long@)(self@.args[i as int]));
                return true;
            }
        }
        false
    }

    /// Sets the operation.
    pub fn op(&mut self, op: &str)
        ensures
            final(self)@ == old(self)@.with_op(op@),
    {
        self.op = op.to_owned();
    }

    /// Adds an option without a value.
    pub fn arg(&mut self, key: &str)
        ensures
            final(self)@ == old(self)@.with_arg(key@),
    {
        let arg = Arg { key: key.to_owned(), value: None };
        proof {
            text::lemma_views_push(self.args@, arg);
        }
        self.args.push(arg);
    }

    /// Adds an option with a value.
    pub fn push_value(&mut self, key: &str, value: &str)
        ensures
            final(self)@ == old(self)@.with_value(key@, value@),
    {
        let arg = Arg { key: key.to_owned(), value: Some(value.to_owned()) };
        proof {
            text::lemma_views_push(self.args@, arg);
        }
        self.args.push(arg);
    }

    /// Takes every option of a name out.
    pub fn remove(&mut self, key: &str)
        ensures
            final(self)@ == old(self)@.without(key@),
    {
        let mut kept: Vec<Arg> = Vec::new();
        let ghost all = text::views(self.args@);
        let ghost keep = |arg: ArgView| arg.key != key@;
        proof {
            reveal(Seq::filter);
        }
        assert(all.take(0) =~= Seq::<ArgView>::empty());
        assert(text::views(kept@) =~= Seq::<ArgView>::empty());
        for i in 0..self.args.len()
            invariant
                all == text::views(self.args@),
                keep == (|arg: ArgView| arg.key != key@),
                text::views(kept@) == all.take(i as int).filter(keep),
        {
            proof {
                text::lemma_take_push(all, i as int);
                text::lemma_filter_push(all.take(i as int), all[i as int], keep);
            }
            if !text::same(self.args[i].key.as_str(), key) {
                let arg = self.args[i].clone();
                proof {
                    text::lemma_views_push(kept@, arg);
                }
                kept.push(arg);
            }
        }
        assert(all.take(self.args@.len() as int) =~= all);
        self.args = kept;
    }
}

/// An option is there exactly where its count is not zero.
pub proof fn law_has_arg_counts(args: ArgsView, short: Seq<char>, long: Seq<char>)
    ensures
        args.has_arg(short, long) <==> args.count(short, long) > 0,
{
    lemma_filter_some(args.args, called(short, long));
}

proof fn lemma_filter_some<T>(items: Seq<T>, test: spec_fn(T) -> bool)
    ensures
        (exists|i: int| 0 <= i < items.len() && test(#[trigger] items[i])) <==> items.filter(
            test,
        ).len() > 0,
    decreases items.len(),
{
    reveal(Seq::filter);
    if items.len() > 0 {
        let init = items.drop_last();
        lemma_filter_some(init, test);
        assert(items =~= init.push(items.last()));
        text::lemma_filter_push(init, items.last(), test);
        if exists|i: int| 0 <= i < init.len() && test(#[trigger] init[i]) {
            let i = choose|i: int| 0 <= i < init.len() && test(#[trigger] init[i]);
            assert(test(items[i]));
        }
        if test(items.last()) {
            assert(test(items[items.len() - 1]));
        }
        if exists|i: int| 0 <= i < items.len() && test(#[trigger] items[i]) {
            let i = choose|i: int| 0 <= i < items.len() && test(#[trigger] items[i]);
            if i < init.len() {
                assert(test(init[i]));
            }
        }
    }
}

/// A removed option is gone, and the options of other names stay.
pub proof fn law_remove(args: ArgsView, key: Seq<char>, other: Seq<char>)
    requires
        other != key,
    ensures
        args.without(key).count(key, key) == 0,
        args.without(key).count(other, other) == args.count(other, other),
        args.without(key).op == args.op,
        args.without(key).targets == args.targets,
{
    lemma_filter_filter(args.args, key, other);
}

proof fn lemma_filter_filter(items: Seq<ArgView>, key: Seq<char>, other: Seq<char>)
    requires
        other != key,
    ensures
        ({
            let rest = items.filter(|arg: ArgView| arg.key != key);
            &&& rest.filter(called(key, key)).len() == 0
            &&& rest.filter(called(other, other)) == items.filter(called(other, other))
        }),
    decreases items.len(),
{
    let keep = |arg: ArgView| arg.key != key;
    reveal(Seq::filter);
    if items.len() > 0 {
        let init = items.drop_last();
        let last = items.last();
        lemma_filter_filter(init, key, other);
        assert(items =~= init.push(last));
        text::lemma_filter_push(init, last, keep);
        text::lemma_filter_push(init, last, called(other, other));
        text::lemma_filter_push(init.filter(keep), last, called(key, key));
        text::lemma_filter_push(init.filter(keep), last, called(other, other));
    }
}

/// Whether an option goes by either name at two places at least.
pub open spec fn twice(args: ArgsView, short: Seq<char>, long: Seq<char>) -> bool {
    exists|i: int, j: int|
        0 <= i < j < args.args.len() && ((#[trigger] args.args[i]).key == short || args.args[i].key
            == long) && ((#[trigger] args.args[j]).key == short || args.args[j].key == long)
}

/// An option is there exactly where it stands at some place under one of its names.
pub proof fn law_has_arg(args: ArgsView, short: Seq<char>, long: Seq<char>)
    ensures
        args.has_arg(short, long) <==> exists|i: int|
            0 <= i < args.args.len() && ((#[trigger] args.args[i]).key == short || args.args[i].key
                == long),
{
    if exists|i: int|
        0 <= i < args.args.len() && ((#[trigger] args.args[i]).key == short || args.args[i].key
            == long) {
        let i = choose|i: int|
            0 <= i < args.args.len() && ((#[trigger] args.args[i]).key == short || args.args[i].key
                == long);
        assert(called(short, long)(args.args[i]));
    }
}

/// Each option counts once, and only under its own names.
pub proof fn law_count(args: ArgsView, short: Seq<char>, long: Seq<char>, arg: ArgView)
    ensures
        args.args.len() == 0 ==> args.count(short, long) == 0,
        (ArgsView { args: args.args.push(arg), ..args }).count(short, long) == args.count(
            short,
            long,
        ) + (if arg.key == short || arg.key == long {
            1nat
        } else {
            0
        }),
{
    reveal(Seq::filter);
    text::lemma_filter_push(args.args, arg, called(short, long));
}

/// A count above one tells of two places.
pub proof fn law_counted_twice(args: ArgsView, short: Seq<char>, long: Seq<char>)
    ensures
        args.count(short, long) > 1 <==> twice(args, short, long),
    decreases args.args.len(),
{
    reveal(Seq::filter);
    let all = args.args;
    if all.len() > 0 {
        let init = ArgsView { args: all.drop_last(), ..args };
        law_counted_twice(init, short, long);
        law_has_arg_counts(init, short, long);
        law_has_arg(init, short, long);
        assert(all =~= init.args.push(all.last()));
        text::lemma_filter_push(init.args, all.last(), called(short, long));
        if twice(init, short, long) {
            let (i, j) = choose|i: int, j: int|
                0 <= i < j < init.args.len() && ((#[trigger] init.args[i]).key == short
                    || init.args[i].key == long) && ((#[trigger] init.args[j]).key == short
                    || init.args[j].key == long);
            assert(all[i] == init.args[i] && all[j] == init.args[j]);
        }
        if args.count(short, long) > 1 && !twice(init, short, long) {
            let i = choose|i: int|
                0 <= i < init.args.len() && ((#[trigger] init.args[i]).key == short
                    || init.args[i].key == long);
            assert(all[i] == init.args[i]);
            assert(all[all.len() - 1] == all.last());
        }
        if twice(args, short, long) {
            let (i, j) = choose|i: int, j: int|
                0 <= i < j < all.len() && ((#[trigger] all[i]).key == short || all[i].key == long)
                    && ((#[trigger] all[j]).key == short || all[j].key == long);
            assert(init.args[i] == all[i]);
            if j < init.args.len() {
                assert(init.args[j] == all[j]);
            }
        }
    }
}

/// Taking an option out leaves exactly the options of other names, in their order.
pub proof fn law_without(args: ArgsView, key: Seq<char>, arg: ArgView)
    ensures
        args.without(key).args.contains(arg) <==> args.args.contains(arg) && arg.key != key,
        !args.has_arg(key, key) ==> args.without(key) == args,
        arg.key != key ==> (ArgsView { args: args.args.push(arg), ..args }).without(key)
            == (ArgsView { args: args.without(key).args.push(arg), ..args }),
{
    let keep = |arg: ArgView| arg.key != key;
    text::lemma_filter_item(args.args, keep, arg);
    text::lemma_filter_push(args.args, arg, keep);
    if !args.has_arg(key, key) {
        lemma_all_kept(args.args, key);
    }
}

proof fn lemma_all_kept(items: Seq<ArgView>, key: Seq<char>)
    requires
        forall|i: int| 0 <= i < items.len() ==> !called(key, key)(#[trigger] items[i]),
    ensures
        items.filter(|arg: ArgView| arg.key != key) == items,
    decreases items.len(),
{
    reveal(Seq::filter);
    if items.len() > 0 {
        let init = items.drop_last();
        assert forall|i: int| 0 <= i < init.len() implies !called(key, key)(
            #[trigger] init[i],
        ) by {
            assert(init[i] == items[i]);
        }
        lemma_all_kept(init, key);
        assert(!called(key, key)(items[items.len() - 1]));
        assert(items =~= init.push(items.last()));
        text::lemma_filter_push(init, items.last(), |arg: ArgView| arg.key != key);
    } else {
        assert(items.filter(|arg: ArgView| arg.key != key) =~= items);
    }
}

/// What is added to a call is there afterwards, at the end, and nothing else changes.
pub proof fn law_added(args: ArgsView, key: Seq<char>, value: Seq<char>, n: nat)
    ensures
        ({
            let one = args.with_arg(key);
            let given = args.with_value(key, value);
            let many = args.with_args(key, n);
            &&& one.op == args.op && given.op == args.op && many.op == args.op
            &&& one.targets == args.targets && given.targets == args.targets && many.targets
                == args.targets
            &&& one.args.drop_last() == args.args && given.args.drop_last() == args.args
            &&& one.args.last().key == key && one.args.last().value is None
            &&& given.args.last().key == key && given.args.last().value == Some(value)
            &&& many.args.len() == args.args.len() + n
            &&& many.args.take(args.args.len() as int) == args.args
            &&& forall|i: int|
                args.args.len() <= i < many.args.len() ==> (#[trigger] many.args[i]).key == key
                    && many.args[i].value is None
        }),
{
    assert(args.with_arg(key).args.drop_last() =~= args.args);
    assert(args.with_value(key, value).args.drop_last() =~= args.args);
    assert(args.with_args(key, n).args.take(args.args.len() as int) =~= args.args);
}

/// Setting the operation or the targets leaves the rest alone.
pub proof fn law_set(args: ArgsView, op: Seq<char>, targets: Seq<Seq<char>>)
    ensures
        args.with_op(op).op == op,
        args.with_op(op).args == args.args && args.with_op(op).targets == args.targets,
        args.with_targets(targets).targets == targets,
        args.with_targets(targets).args == args.args && args.with_targets(targets).op == args.op,
{
}

} // verus!

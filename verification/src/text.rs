//! Text as sequences of characters: cutting, joining, numbers and padding.
use vstd::prelude::*;

verus! {

/// The views of the items of a sequence.
pub open spec fn views<T: View>(items: Seq<T>) -> Seq<T::V> {
    items.map_values(|item: T| item@)
}

pub proof fn lemma_views_push<T: View>(items: Seq<T>, item: T)
    ensures
        views(items.push(item)) == views(items).push(item@),
{
    assert(views(items.push(item)) =~= views(items).push(item@));
}

pub proof fn lemma_take_push<T>(items: Seq<T>, n: int)
    requires
        0 <= n < items.len(),
    ensures
        items.take(n + 1) == items.take(n).push(items[n]),
        items.take(n + 1).drop_last() == items.take(n),
        items.take(n + 1).last() == items[n],
{
    assert(items.take(n + 1) =~= items.take(n).push(items[n]));
    assert(items.take(n + 1).drop_last() =~= items.take(n));
}

/// Keeping what a test accepts, one item at a time.
pub proof fn lemma_filter_push<T>(items: Seq<T>, item: T, keep: spec_fn(T) -> bool)
    ensures
        items.push(item).filter(keep) == (if keep(item) {
            items.filter(keep).push(item)
        } else {
            items.filter(keep)
        }),
{
    reveal(Seq::filter);
    assert(items.push(item).drop_last() =~= items);
}

/// What is kept is what was there and what the test accepts.
pub proof fn lemma_filter_item<T>(items: Seq<T>, keep: spec_fn(T) -> bool, item: T)
    ensures
        items.filter(keep).contains(item) <==> items.contains(item) && keep(item),
    decreases items.len(),
{
    reveal(Seq::filter);
    if items.len() > 0 {
        let init = items.drop_last();
        let last = items.last();
        let less = init.filter(keep);
        let more = items.filter(keep);
        lemma_filter_item(init, keep, item);
        assert(items =~= init.push(last));
        lemma_filter_push(init, last, keep);
        if less.contains(item) {
            let k = choose|k: int| 0 <= k < less.len() && less[k] == item;
            assert(more[k] == item);
        }
        if more.contains(item) && !less.contains(item) {
            let k = choose|k: int| 0 <= k < more.len() && more[k] == item;
            if k < less.len() {
                assert(less[k] == item);
            }
            assert(items[items.len() - 1] == item);
        }
        if items.contains(item) && keep(item) {
            let k = choose|k: int| 0 <= k < items.len() && items[k] == item;
            if k < init.len() {
                assert(init[k] == item);
            } else {
                assert(more[less.len() as int] == item);
            }
        }
        if init.contains(item) {
            let k = choose|k: int| 0 <= k < init.len() && init[k] == item;
            assert(items[k] == item);
        }
    }
}

/// What is made of the kept items is what is made of an item that the test accepts.
pub proof fn lemma_filter_mapped<T, U>(
    items: Seq<T>,
    keep: spec_fn(T) -> bool,
    make: spec_fn(T) -> U,
    made: U,
)
    ensures
        items.filter(keep).map_values(make).contains(made) <==> exists|i: int|
            0 <= i < items.len() && keep(#[trigger] items[i]) && make(items[i]) == made,
{
    let kept = items.filter(keep);
    let all = kept.map_values(make);
    if all.contains(made) {
        let k = choose|k: int| 0 <= k < all.len() && all[k] == made;
        lemma_filter_item(items, keep, kept[k]);
        assert(kept.contains(kept[k]));
        let i = choose|i: int| 0 <= i < items.len() && items[i] == kept[k];
        assert(keep(items[i]) && make(items[i]) == made);
    }
    if exists|i: int| 0 <= i < items.len() && keep(#[trigger] items[i]) && make(items[i]) == made {
        let i = choose|i: int|
            0 <= i < items.len() && keep(#[trigger] items[i]) && make(items[i]) == made;
        lemma_filter_item(items, keep, items[i]);
        assert(items.contains(items[i]));
        let k = choose|k: int| 0 <= k < kept.len() && kept[k] == items[i];
        assert(all[k] == made);
    }
}

/// Of two runs of items one after the other each is filtered by itself.
pub proof fn lemma_filter_mapped_add<T, U>(
    first: Seq<T>,
    second: Seq<T>,
    keep: spec_fn(T) -> bool,
    make: spec_fn(T) -> U,
)
    ensures
        (first + second).filter(keep) == first.filter(keep) + second.filter(keep),
        (first + second).filter(keep).map_values(make) == first.filter(keep).map_values(make)
            + second.filter(keep).map_values(make),
    decreases second.len(),
{
    reveal(Seq::filter);
    if second.len() == 0 {
        assert(first + second =~= first);
        assert(first.filter(keep) + second.filter(keep) =~= first.filter(keep));
    } else {
        let init = second.drop_last();
        let last = second.last();
        lemma_filter_mapped_add(first, init, keep, make);
        assert(second =~= init.push(last));
        assert(first + second =~= (first + init).push(last));
        lemma_filter_push(init, last, keep);
        lemma_filter_push(first + init, last, keep);
        assert((first + second).filter(keep) =~= first.filter(keep) + second.filter(keep));
    }
    assert((first + second).filter(keep).map_values(make) =~= first.filter(keep).map_values(make)
        + second.filter(keep).map_values(make));
}

/// Each item with its mark.
pub open spec fn paired<T>(items: Seq<T>, marks: Seq<bool>) -> Seq<(T, bool)> {
    Seq::new(items.len(), |i: int| (items[i], marks[i]))
}

/// The items whose mark is `mark`.
pub open spec fn marked<T>(items: Seq<T>, marks: Seq<bool>, mark: bool) -> Seq<T> {
    unpaired(paired(items, marks).filter(has_mark(mark)))
}

/// The items without their marks.
pub open spec fn unpaired<T>(pairs: Seq<(T, bool)>) -> Seq<T> {
    pairs.map_values(|pair: (T, bool)| pair.0)
}

/// The test for an item with a mark.
pub open spec fn has_mark<T>(mark: bool) -> spec_fn((T, bool)) -> bool {
    |pair: (T, bool)| pair.1 == mark
}

/// Keeping the pairs that a test accepts, one pair at a time.
pub proof fn lemma_paired_push<T>(
    items: Seq<T>,
    marks: Seq<bool>,
    n: int,
    keep: spec_fn((T, bool)) -> bool,
)
    requires
        0 <= n < items.len(),
    ensures
        unpaired(paired(items.take(n + 1), marks).filter(keep)) == (if keep((items[n], marks[n])) {
            unpaired(paired(items.take(n), marks).filter(keep)).push(items[n])
        } else {
            unpaired(paired(items.take(n), marks).filter(keep))
        }),
{
    let before = paired(items.take(n), marks);
    assert(paired(items.take(n + 1), marks) =~= paired(items.take(n), marks).push(
        (items[n], marks[n]),
    ));
    lemma_filter_push(before, (items[n], marks[n]), keep);
    assert(unpaired(before.filter(keep).push((items[n], marks[n]))) =~= unpaired(
        before.filter(keep),
    ).push(items[n]));
}

/// Keeping the items with a mark, one item at a time.
pub proof fn lemma_marked_push<T>(items: Seq<T>, marks: Seq<bool>, n: int, mark: bool)
    requires
        0 <= n < items.len(),
    ensures
        marked(items.take(n + 1), marks, mark) == (if marks[n] == mark {
            marked(items.take(n), marks, mark).push(items[n])
        } else {
            marked(items.take(n), marks, mark)
        }),
{
    lemma_paired_push(items, marks, n, has_mark(mark));
}

/// Without items nothing is kept.
pub proof fn lemma_marked_none<T>(items: Seq<T>, marks: Seq<bool>, mark: bool)
    ensures
        marked(items.take(0), marks, mark) == Seq::<T>::empty(),
{
    reveal(Seq::filter);
    assert(marked(items.take(0), marks, mark) =~= Seq::<T>::empty());
}

/// The items that a test accepts together with their marks: an item is among them exactly
/// where it stands at a place where the test accepts it.
pub proof fn lemma_paired_item<T>(
    items: Seq<T>,
    marks: Seq<bool>,
    keep: spec_fn((T, bool)) -> bool,
    item: T,
)
    ensures
        unpaired(paired(items, marks).filter(keep)).contains(item) <==> exists|i: int|
            0 <= i < items.len() && #[trigger] items[i] == item && keep((items[i], marks[i])),
{
    let pairs = paired(items, marks);
    let inner = |pair: (T, bool)| pair.0;
    lemma_filter_mapped(pairs, keep, inner, item);
    if exists|i: int| 0 <= i < pairs.len() && keep(#[trigger] pairs[i]) && inner(pairs[i]) == item {
        let i = choose|i: int|
            0 <= i < pairs.len() && keep(#[trigger] pairs[i]) && inner(pairs[i]) == item;
        assert(items[i] == item && keep((items[i], marks[i])));
    }
    if exists|i: int|
        0 <= i < items.len() && #[trigger] items[i] == item && keep((items[i], marks[i])) {
        let i = choose|i: int|
            0 <= i < items.len() && #[trigger] items[i] == item && keep((items[i], marks[i]));
        assert(keep(pairs[i]) && inner(pairs[i]) == item);
    }
}

/// Of two runs of items one after the other each is filtered by itself.
pub proof fn lemma_paired_add<T>(
    items: (Seq<T>, Seq<T>),
    marks: (Seq<bool>, Seq<bool>),
    keep: spec_fn((T, bool)) -> bool,
)
    requires
        marks.0.len() == items.0.len(),
        marks.1.len() == items.1.len(),
    ensures
        unpaired(paired(items.0 + items.1, marks.0 + marks.1).filter(keep)) == unpaired(
            paired(items.0, marks.0).filter(keep),
        ) + unpaired(paired(items.1, marks.1).filter(keep)),
{
    let pairs = paired(items.0 + items.1, marks.0 + marks.1);
    let first = paired(items.0, marks.0);
    let second = paired(items.1, marks.1);
    assert(pairs =~= first + second);
    lemma_filter_mapped_add(first, second, keep, |pair: (T, bool)| pair.0);
}

/// The items with a mark are, in order, exactly those that stand where that mark stands.
pub proof fn law_marked<T>(items: Seq<T>, marks: Seq<bool>, mark: bool, item: T)
    ensures
        marked(items, marks, mark).contains(item) <==> exists|i: int|
            0 <= i < items.len() && #[trigger] items[i] == item && marks[i] == mark,
{
    lemma_paired_item(items, marks, has_mark(mark), item);
    if exists|i: int| 0 <= i < items.len() && #[trigger] items[i] == item && marks[i] == mark {
        let i = choose|i: int|
            0 <= i < items.len() && #[trigger] items[i] == item && marks[i] == mark;
        assert(items[i] == item && has_mark(mark)((items[i], marks[i])));
    }
}

/// Of two runs of marked items one after the other each is looked through by itself, so
/// that the order of the items is kept.
pub proof fn law_marked_in_order<T>(
    items: (Seq<T>, Seq<T>),
    marks: (Seq<bool>, Seq<bool>),
    mark: bool,
)
    requires
        marks.0.len() == items.0.len(),
        marks.1.len() == items.1.len(),
    ensures
        marked(items.0 + items.1, marks.0 + marks.1, mark) == marked(items.0, marks.0, mark)
            + marked(items.1, marks.1, mark),
{
    lemma_paired_add(items, marks, has_mark(mark));
}

/// The view of an optional value.
pub open spec fn option_view<T: View>(value: Option<T>) -> Option<T::V> {
    match value {
        Some(value) => Some(value@),
        None => None,
    }
}

/// Whether two texts hold the same characters.
pub fn same(a: &str, b: &str) -> (r: bool)
    ensures
        r == (a@ == b@),
{
    a.to_owned() == b.to_owned()
}

/// Whether a text is among `items`.
pub fn contains(items: &Vec<String>, item: &str) -> (r: bool)
    ensures
        r == views(items@).contains(item@),
{
    for i in 0..items.len()
        invariant
            forall|j: int| 0 <= j < i ==> views(items@)[j] != item@,
    {
        if same(items[i].as_str(), item) {
            assert(views(items@)[i as int] == item@);
            return true;
        }
    }
    false
}

/// A copy of a list of texts.
pub fn copy_texts(items: &Vec<String>) -> (r: Vec<String>)
    ensures
        views(r@) == views(items@),
{
    let mut out: Vec<String> = Vec::new();
    for i in 0..items.len()
        invariant
            views(out@) == views(items@).take(i as int),
    {
        proof {
            lemma_views_push(out@, items[i as int]);
            lemma_take_push(views(items@), i as int);
        }
        out.push(items[i].clone());
    }
    assert(views(items@).take(items@.len() as int) =~= views(items@));
    out
}

/// Appends the items of `more` to `items`.
pub fn append_texts(items: &mut Vec<String>, more: &Vec<String>)
    ensures
        views(final(items)@) == views(old(items)@) + views(more@),
{
    assert(views(items@) =~= views(old(items)@) + views(more@).take(0));
    for i in 0..more.len()
        invariant
            views(items@) == views(old(items)@) + views(more@).take(i as int),
    {
        proof {
            lemma_views_push(items@, more[i as int]);
            lemma_take_push(views(more@), i as int);
            assert(views(old(items)@) + views(more@).take(i as int).push(more[i as int]@)
                =~= (views(old(items)@) + views(more@).take(i as int)).push(more[i as int]@));
        }
        items.push(more[i].clone());
    }
    assert(views(more@).take(more@.len() as int) =~= views(more@));
}

// ---- joining ----

/// The parts one after the other, with `sep` between neighbours.
pub open spec fn joined(parts: Seq<Seq<char>>, sep: Seq<char>) -> Seq<char>
    decreases parts.len(),
{
    if parts.len() == 0 {
        Seq::empty()
    } else if parts.len() == 1 {
        parts.last()
    } else {
        joined(parts.drop_last(), sep) + sep + parts.last()
    }
}

/// Joins `parts[from..to]` with `sep` between neighbours.
pub fn join(parts: &Vec<String>, from: usize, to: usize, sep: &str) -> (r: String)
    requires
        from <= to <= parts.len(),
    ensures
        r@ == joined(views(parts@).subrange(from as int, to as int), sep@),
{
    let mut out = String::new();
    let ghost all = views(parts@).subrange(from as int, to as int);
    assert(all.take(0) =~= Seq::<Seq<char>>::empty());
    for i in from..to
        invariant
            from <= to <= parts.len(),
            all == views(parts@).subrange(from as int, to as int),
            out@ == joined(all.take(i - from), sep@),
    {
        proof {
            lemma_take_push(all, i - from);
        }
        if i > from {
            out.append(sep);
        }
        out.append(parts[i].as_str());
        proof {
            if i == from {
                assert(out@ =~= parts[i as int]@);
            }
        }
    }
    assert(all.take(to - from) =~= all);
    out
}

// ---- cutting ----

/// The stretches of `text` between the occurrences of `sep`; at least one.
pub open spec fn pieces(text: Seq<char>, sep: char) -> Seq<Seq<char>>
    decreases text.len(),
{
    if text.len() == 0 {
        seq![Seq::empty()]
    } else {
        let before = pieces(text.drop_last(), sep);
        if text.last() == sep {
            before.push(Seq::empty())
        } else {
            before.drop_last().push(before.last().push(text.last()))
        }
    }
}

pub proof fn lemma_pieces_some(text: Seq<char>, sep: char)
    ensures
        pieces(text, sep).len() >= 1,
    decreases text.len(),
{
    if text.len() > 0 {
        lemma_pieces_some(text.drop_last(), sep);
    }
}

/// A text without the separator is one piece.
pub proof fn lemma_pieces_whole(text: Seq<char>, sep: char)
    requires
        !text.contains(sep),
    ensures
        pieces(text, sep) == seq![text],
    decreases text.len(),
{
    if text.len() > 0 {
        let init = text.drop_last();
        assert(!init.contains(sep)) by {
            if init.contains(sep) {
                let k = choose|k: int| 0 <= k < init.len() && init[k] == sep;
                assert(text[k] == sep);
            }
        }
        lemma_pieces_whole(init, sep);
        assert(text.last() != sep) by {
            assert(text[text.len() - 1] == text.last());
        }
        assert(init.push(text.last()) =~= text);
        assert(pieces(text, sep) =~= seq![text]);
    } else {
        assert(text =~= Seq::<char>::empty());
    }
}

/// Cutting at one occurrence of the separator cuts each side by itself.
pub proof fn lemma_pieces_concat(a: Seq<char>, sep: char, b: Seq<char>)
    ensures
        pieces(a.push(sep) + b, sep) == pieces(a, sep) + pieces(b, sep),
    decreases b.len(),
{
    let whole = a.push(sep) + b;
    if b.len() == 0 {
        assert(whole =~= a.push(sep));
        assert(whole.drop_last() =~= a);
        assert(pieces(whole, sep) =~= pieces(a, sep) + pieces(b, sep));
    } else {
        lemma_pieces_concat(a, sep, b.drop_last());
        lemma_pieces_some(b.drop_last(), sep);
        assert(whole.drop_last() =~= a.push(sep) + b.drop_last());
        assert(whole.last() == b.last());
        assert(pieces(whole, sep) =~= pieces(a, sep) + pieces(b, sep));
    }
}

/// Joining the pieces with the separator gives the text back.
pub proof fn lemma_joined_pieces(text: Seq<char>, sep: char)
    ensures
        joined(pieces(text, sep), seq![sep]) == text,
    decreases text.len(),
{
    let all = pieces(text, sep);
    if text.len() == 0 {
        assert(all.last() =~= text);
    } else {
        let before = pieces(text.drop_last(), sep);
        lemma_joined_pieces(text.drop_last(), sep);
        lemma_pieces_some(text.drop_last(), sep);
        if text.last() == sep {
            assert(all.drop_last() =~= before);
            assert(joined(all, seq![sep]) =~= text);
        } else {
            assert(all.drop_last() =~= before.drop_last());
            assert(joined(all, seq![sep]) =~= joined(before, seq![sep]).push(text.last()));
            assert(joined(all, seq![sep]) =~= text);
        }
    }
}

/// The characters of a text.
pub fn chars(text: &str) -> (r: Vec<char>)
    ensures
        r@ == text@,
{
    let mut out: Vec<char> = Vec::new();
    for c in it: text.chars()
        invariant
            out@ == it.seq().take(it.index() as int),
            it.seq() == text@,
    {
        proof {
            lemma_take_push(it.seq(), it.index() as int);
        }
        out.push(c);
    }
    assert(text@.take(text@.len() as int) =~= text@);
    out
}

/// Cuts a text at every `sep`.
pub fn split(text: &str, sep: char) -> (r: Vec<String>)
    ensures
        views(r@) == pieces(text@, sep),
{
    let cs = chars(text);
    let mut out: Vec<String> = Vec::new();
    let mut start: usize = 0;
    assert(text@.take(0) =~= Seq::<char>::empty());
    assert(views(out@).push(text@.subrange(0, 0)) =~= pieces(text@.take(0), sep)) by {
        assert(text@.subrange(0, 0) =~= Seq::<char>::empty());
    }
    for i in 0..cs.len()
        invariant
            cs@ == text@,
            start <= i,
            views(out@).push(text@.subrange(start as int, i as int)) == pieces(
                text@.take(i as int),
                sep,
            ),
    {
        let ghost before = pieces(text@.take(i as int), sep);
        proof {
            lemma_take_push(text@, i as int);
        }
        if cs[i] == sep {
            let piece = text.substring_char(start, i).to_owned();
            proof {
                lemma_views_push(out@, piece);
            }
            out.push(piece);
            start = i + 1;
            assert(text@.subrange(start as int, i + 1) =~= Seq::<char>::empty());
        } else {
            assert(before.drop_last() =~= views(out@));
            assert(text@.subrange(start as int, i + 1) =~= before.last().push(text@[i as int]));
        }
    }
    assert(text@.take(text@.len() as int) =~= text@);
    let piece = text.substring_char(start, cs.len()).to_owned();
    proof {
        lemma_views_push(out@, piece);
    }
    out.push(piece);
    out
}

/// One carriage return less at the end, where there is one.
pub open spec fn without_return(line: Seq<char>) -> Seq<char> {
    if line.len() > 0 && line.last() == '\r' {
        line.drop_last()
    } else {
        line
    }
}

/// The lines of a text: a line ends in a line feed, or in a carriage return and a
/// line feed, and neither belongs to it; the last line may go without.
pub open spec fn lines_of(text: Seq<char>) -> Seq<Seq<char>> {
    let cut = pieces(text, '\n');
    let ended = cut.drop_last().map_values(|line: Seq<char>| without_return(line));
    if cut.last().len() == 0 {
        ended
    } else {
        ended.push(cut.last())
    }
}

/// Cuts a text into its lines.
pub fn lines(text: &str) -> (r: Vec<String>)
    ensures
        views(r@) == lines_of(text@),
{
    let cut = split(text, '\n');
    proof {
        lemma_pieces_some(text@, '\n');
    }
    let mut out: Vec<String> = Vec::new();
    let ghost ended = pieces(text@, '\n').drop_last().map_values(
        |line: Seq<char>| without_return(line),
    );
    let last: usize = cut.len() - 1;
    for i in 0..last
        invariant
            last == cut.len() - 1,
            views(cut@) == pieces(text@, '\n'),
            ended == views(cut@).drop_last().map_values(|line: Seq<char>| without_return(line)),
            views(out@) == ended.take(i as int),
    {
        let line = cut[i].as_str();
        let n = line.unicode_len();
        proof {
            lemma_take_push(ended, i as int);
            assert(ended[i as int] == without_return(cut[i as int]@));
        }
        let kept = if n > 0 && line.get_char(n - 1) == '\r' {
            assert(line@.subrange(0, n - 1) =~= line@.drop_last());
            line.substring_char(0, n - 1).to_owned()
        } else {
            line.to_owned()
        };
        proof {
            lemma_views_push(out@, kept);
        }
        out.push(kept);
    }
    assert(ended.take(last as int) =~= ended);
    assert(cut[last as int]@ == views(cut@).last());
    if cut[last].unicode_len() > 0 {
        let kept = cut[last].clone();
        proof {
            lemma_views_push(out@, kept);
        }
        out.push(kept);
    }
    out
}

/// White space in the sense of Unicode's `White_Space` property.
pub open spec fn white(c: char) -> bool {
    let u = c as u32;
    ||| 0x09 <= u <= 0x0d
    ||| u == 0x20
    ||| u == 0x85
    ||| u == 0xa0
    ||| u == 0x1680
    ||| 0x2000 <= u <= 0x200a
    ||| u == 0x2028
    ||| u == 0x2029
    ||| u == 0x202f
    ||| u == 0x205f
    ||| u == 0x3000
}

fn is_white(c: char) -> (r: bool)
    ensures
        r == white(c),
{
    let u: u32 = c as u32;
    (0x09 <= u && u <= 0x0d) || u == 0x20 || u == 0x85 || u == 0xa0 || u == 0x1680 || (0x2000 <= u
        && u <= 0x200a) || u == 0x2028 || u == 0x2029 || u == 0x202f || u == 0x205f || u == 0x3000
}

/// The text from its first character on that is not white space.
pub open spec fn trimmed_start(text: Seq<char>) -> Seq<char>
    decreases text.len(),
{
    if text.len() > 0 && white(text.first()) {
        trimmed_start(text.drop_first())
    } else {
        text
    }
}

/// The text up to its last character that is not white space.
pub open spec fn trimmed_end(text: Seq<char>) -> Seq<char>
    decreases text.len(),
{
    if text.len() > 0 && white(text.last()) {
        trimmed_end(text.drop_last())
    } else {
        text
    }
}

/// The text without the white space at either end.
pub open spec fn trimmed(text: Seq<char>) -> Seq<char> {
    trimmed_end(trimmed_start(text))
}

/// Cuts the white space off both ends.
pub fn trim(text: &str) -> (r: String)
    ensures
        r@ == trimmed(text@),
{
    let cs = chars(text);
    let mut from: usize = 0;
    assert(text@.skip(0) =~= text@);
    while from < cs.len() && is_white(cs[from])
        invariant
            cs@ == text@,
            from <= cs.len(),
            trimmed_start(text@.skip(from as int)) == trimmed_start(text@),
        decreases cs.len() - from,
    {
        assert(text@.skip(from as int).drop_first() =~= text@.skip(from + 1));
        from = from + 1;
    }
    let mut to: usize = cs.len();
    let ghost rest = trimmed_start(text@);
    assert(rest == text@.skip(from as int));
    assert(text@.subrange(from as int, to as int) =~= rest);
    while to > from && is_white(cs[to - 1])
        invariant
            cs@ == text@,
            from <= to <= cs.len(),
            trimmed_end(text@.subrange(from as int, to as int)) == trimmed_end(rest),
        decreases to,
    {
        assert(text@.subrange(from as int, to as int).drop_last() =~= text@.subrange(
            from as int,
            to - 1,
        ));
        to = to - 1;
    }
    text.substring_char(from, to).to_owned()
}

/// Whether `text` ends in `tail`.
pub open spec fn ends_in(text: Seq<char>, tail: Seq<char>) -> bool {
    tail.len() <= text.len() && text.skip(text.len() - tail.len()) == tail
}

/// Tells whether `text` ends in `tail`.
pub fn ends_with(text: &str, tail: &str) -> (r: bool)
    ensures
        r == ends_in(text@, tail@),
{
    let n = text.unicode_len();
    let m = tail.unicode_len();
    if m > n {
        return false;
    }
    assert(text@.subrange(n - m, n as int) =~= text@.skip(n - m));
    same(text.substring_char(n - m, n), tail)
}

// ---- numbers ----

/// The character of a decimal digit.
pub open spec fn digit(d: int) -> char {
    (0x30 + d) as char
}

/// A number in decimal, without leading zeros.
pub open spec fn decimal(n: nat) -> Seq<char>
    decreases n,
{
    if n < 10 {
        seq![digit(n as int)]
    } else {
        decimal(n / 10).push(digit((n % 10) as int))
    }
}

/// An integer in decimal, with a minus sign where it is negative.
pub open spec fn signed_decimal(n: int) -> Seq<char> {
    if n < 0 {
        seq!['-'] + decimal((-n) as nat)
    } else {
        decimal(n as nat)
    }
}

fn digit_text(d: u64) -> (r: &'static str)
    requires
        d < 10,
    ensures
        r@ == seq![digit(d as int)],
{
    proof {
        reveal_strlit("0");
        reveal_strlit("1");
        reveal_strlit("2");
        reveal_strlit("3");
        reveal_strlit("4");
        reveal_strlit("5");
        reveal_strlit("6");
        reveal_strlit("7");
        reveal_strlit("8");
        reveal_strlit("9");
    }
    let r = match d {
        0 => "0",
        1 => "1",
        2 => "2",
        3 => "3",
        4 => "4",
        5 => "5",
        6 => "6",
        7 => "7",
        8 => "8",
        _ => "9",
    };
    assert(r@ =~= seq![digit(d as int)]);
    r
}

/// Writes a number in decimal.
pub fn number_text(n: u64) -> (r: String)
    ensures
        r@ == decimal(n as nat),
    decreases n,
{
    if n < 10 {
        digit_text(n).to_owned()
    } else {
        let mut out = number_text(n / 10);
        let ghost init = out@;
        out.append(digit_text(n % 10));
        assert(out@ =~= init.push(digit((n % 10) as int)));
        out
    }
}

/// Writes a length in decimal.
pub fn length_text(n: usize) -> (r: String)
    ensures
        r@ == decimal(n as nat),
{
    number_text(n as u64)
}

/// Writes a signed number in decimal.
pub fn signed_text(n: i32) -> (r: String)
    ensures
        r@ == signed_decimal(n as int),
{
    if n < 0 {
        let mut out = "-".to_owned();
        proof {
            reveal_strlit("-");
        }
        assert(out@ =~= seq!['-']);
        let size: u64 = (-(n as i64)) as u64;
        out.append(number_text(size).as_str());
        out
    } else {
        number_text(n as u64)
    }
}

/// A larger number takes at least as many digits.
pub proof fn lemma_decimal_monotonic(a: nat, b: nat)
    requires
        a <= b,
    ensures
        1 <= decimal(a).len() <= decimal(b).len(),
    decreases b,
{
    if b >= 10 {
        if a >= 10 {
            assert(a / 10 <= b / 10) by (nonlinear_arith)
                requires
                    a <= b,
            ;
            lemma_decimal_monotonic(a / 10, b / 10);
        } else {
            lemma_decimal_monotonic(0, b / 10);
        }
    }
}

/// A number below ten to the `digits` takes at most that many digits.
pub proof fn lemma_decimal_short(n: nat, digits: nat)
    requires
        digits >= 1,
        n < vstd::arithmetic::power::pow(10, digits),
    ensures
        decimal(n).len() <= digits,
    decreases digits,
{
    vstd::arithmetic::power::lemma_pow1(10);
    if n >= 10 {
        if digits == 1 {
            assert(false);
        }
        reveal(vstd::arithmetic::power::pow);
        let rest = vstd::arithmetic::power::pow(10, (digits - 1) as nat);
        assert(n < 10 * rest);
        assert(n / 10 < rest);
        lemma_decimal_short(n / 10, (digits - 1) as nat);
    }
}

/// A length takes at most twenty digits.
pub proof fn lemma_length_digits(n: usize)
    ensures
        1 <= decimal(n as nat).len() <= 20,
{
    lemma_decimal_monotonic(n as nat, n as nat);
    assert(n < vstd::arithmetic::power::pow(10, 20)) by {
        vstd::arithmetic::power::lemma_pow_adds(10, 10, 10);
        vstd::arithmetic::power::lemma_pow_adds(10, 5, 5);
        reveal_with_fuel(vstd::arithmetic::power::pow, 6);
        assert(vstd::arithmetic::power::pow(10, 5) == 100000);
        assert(vstd::arithmetic::power::pow(10, 10) == 10000000000int);
        assert(10000000000int * 10000000000int == 100000000000000000000int) by (nonlinear_arith);
        assert(vstd::arithmetic::power::pow(10, 20) == 100000000000000000000int);
    }
    lemma_decimal_short(n as nat, 20);
}

pub open spec fn is_digit(c: char) -> bool {
    0x30 <= c as u32 <= 0x39
}

/// The value of a run of decimal digits.
pub open spec fn value(digits: Seq<char>) -> nat
    decreases digits.len(),
{
    if digits.len() == 0 {
        0
    } else {
        value(digits.drop_last()) * 10 + (digits.last() as u32 - 0x30) as nat
    }
}

pub open spec fn all_digits(text: Seq<char>) -> bool {
    forall|i: int| 0 <= i < text.len() ==> is_digit(#[trigger] text[i])
}

/// The text without a sign in front.
pub open spec fn unsigned(text: Seq<char>) -> Seq<char> {
    if text.len() > 0 && (text.first() == '-' || text.first() == '+') {
        text.drop_first()
    } else {
        text
    }
}

/// The integer that a text spells: an optional sign and at least one digit, within
/// the bounds of `i32`.
pub open spec fn spelled(text: Seq<char>) -> Option<int> {
    let size = value(unsigned(text)) as int;
    let n = if text.len() > 0 && text.first() == '-' {
        -size
    } else {
        size
    };
    if unsigned(text).len() > 0 && all_digits(unsigned(text)) && i32::MIN <= n <= i32::MAX {
        Some(n)
    } else {
        None
    }
}

proof fn lemma_value_grows(digits: Seq<char>, n: int)
    requires
        0 <= n <= digits.len(),
    ensures
        value(digits.take(n)) <= value(digits),
    decreases digits.len(),
{
    if n < digits.len() {
        lemma_value_grows(digits.drop_last(), n);
        assert(digits.drop_last().take(n) =~= digits.take(n));
    } else {
        assert(digits.take(n) =~= digits);
    }
}

/// Reads a signed decimal number.
pub fn parse_i32(text: &str) -> (r: Option<i32>)
    ensures
        r is Some <==> spelled(text@) is Some,
        r matches Some(n) ==> spelled(text@) == Some(n as int),
{
    let cs = chars(text);
    let signed = cs.len() > 0 && (cs[0] == '-' || cs[0] == '+');
    let minus = cs.len() > 0 && cs[0] == '-';
    let from: usize = if signed {
        1
    } else {
        0
    };
    let ghost digits = unsigned(text@);
    assert(digits =~= text@.skip(from as int));
    if from == cs.len() {
        return None;
    }
    let mut size: u64 = 0;
    assert(digits.take(0) =~= Seq::<char>::empty());
    for i in from..cs.len()
        invariant
            cs@ == text@,
            from < cs.len(),
            digits == text@.skip(from as int),
            digits == unsigned(text@),
            forall|j: int| 0 <= j < i - from ==> is_digit(#[trigger] digits[j]),
            size == value(digits.take(i - from)),
            size <= 2147483648,
    {
        let u: u32 = cs[i] as u32;
        assert(digits[i - from] == cs[i as int]);
        if u < 0x30 || u > 0x39 {
            assert(!is_digit(digits[i - from]));
            return None;
        }
        proof {
            lemma_take_push(digits, i - from);
            lemma_value_grows(digits, i - from + 1);
        }
        size = size * 10 + (u - 0x30) as u64;
        if size > 2147483648 {
            return None;
        }
    }
    assert(digits.take(cs.len() - from) =~= digits);
    let n: i64 = if minus {
        -(size as i64)
    } else {
        size as i64
    };
    if n > 2147483647 {
        None
    } else {
        Some(n as i32)
    }
}

// ---- padding ----

/// A run of spaces.
pub open spec fn spaces(n: nat) -> Seq<char> {
    Seq::new(n, |i: int| ' ')
}

/// The text with spaces before it, up to `width` characters.
pub open spec fn right_aligned(text: Seq<char>, width: nat) -> Seq<char> {
    spaces(if text.len() < width { (width - text.len()) as nat } else { 0 }) + text
}

/// Writes a run of spaces.
pub fn blank(n: usize) -> (r: String)
    ensures
        r@ == spaces(n as nat),
{
    let mut out = String::new();
    proof {
        reveal_strlit(" ");
    }
    assert(out@ =~= spaces(0));
    for i in 0..n
        invariant
            out@ == spaces(i as nat),
            " "@ =~= seq![' '],
    {
        out.append(" ");
        assert(out@ =~= spaces((i + 1) as nat));
    }
    out
}

/// Writes a text with spaces before it, up to `width` characters.
pub fn align_right(text: &str, width: usize) -> (r: String)
    ensures
        r@ == right_aligned(text@, width as nat),
{
    let n = text.unicode_len();
    let mut out = if n < width {
        blank(width - n)
    } else {
        blank(0)
    };
    out.append(text);
    out
}

// ---- what texts keep ----

/// No piece holds the separator, and there is one piece more than separators: the pieces,
/// joined again, are the text.
pub proof fn law_pieces(text: Seq<char>, sep: char)
    ensures
        forall|i: int| 0 <= i < pieces(text, sep).len() ==> !(#[trigger] pieces(text, sep)[i]).contains(
            sep,
        ),
        pieces(text, sep).len() == text.filter(|c: char| c == sep).len() + 1,
        joined(pieces(text, sep), seq![sep]) == text,
    decreases text.len(),
{
    reveal(Seq::filter);
    lemma_joined_pieces(text, sep);
    if text.len() > 0 {
        let init = text.drop_last();
        let last = text.last();
        let before = pieces(init, sep);
        let all = pieces(text, sep);
        law_pieces(init, sep);
        lemma_pieces_some(init, sep);
        assert(text =~= init.push(last));
        lemma_filter_push(init, last, |c: char| c == sep);
        assert forall|i: int| 0 <= i < all.len() implies !(#[trigger] all[i]).contains(sep) by {
            if i < before.len() - 1 || last == sep && i < before.len() {
                assert(all[i] == before[i]);
            } else if last != sep {
                assert(!before[before.len() - 1].contains(sep));
                if all[i].contains(sep) {
                    let k = choose|k: int| 0 <= k < all[i].len() && all[i][k] == sep;
                    assert(before.last()[k] == sep);
                }
            }
        }
    }
}

/// Whether a text is white space only.
pub open spec fn blank_only(text: Seq<char>) -> bool {
    forall|i: int| 0 <= i < text.len() ==> white(#[trigger] text[i])
}

/// White space around a text does not count, however much there is; a text that neither
/// begins nor ends in white space is left alone, and of white space nothing is left.
pub proof fn law_trimmed(before: Seq<char>, text: Seq<char>, after: Seq<char>)
    requires
        blank_only(before),
        blank_only(after),
    ensures
        text.len() > 0 && !white(text.first()) && !white(text.last()) ==> trimmed(
            before + text + after,
        ) == text,
        text.len() == 0 ==> trimmed(before + text + after).len() == 0,
        trimmed(trimmed(text)) == trimmed(text),
{
    if text.len() > 0 && !white(text.first()) && !white(text.last()) {
        lemma_trimmed_start(before, text + after);
        assert(before + text + after =~= before + (text + after));
        lemma_trimmed_end(text, after);
    }
    if text.len() == 0 {
        let all = before + text + after;
        assert forall|i: int| 0 <= i < all.len() implies white(#[trigger] all[i]) by {
            if i < before.len() {
                assert(all[i] == before[i]);
            } else {
                assert(all[i] == after[i - before.len()]);
            }
        }
        lemma_all_blank(all);
    }
    lemma_trimmed_ends(text);
    let t = trimmed(text);
    if t.len() > 0 {
        assert(trimmed_start(t) == t);
        assert(trimmed_end(t) == t);
    }
}

proof fn lemma_trimmed_start(before: Seq<char>, rest: Seq<char>)
    requires
        blank_only(before),
        rest.len() > 0,
        !white(rest.first()),
    ensures
        trimmed_start(before + rest) == rest,
    decreases before.len(),
{
    let all = before + rest;
    if before.len() > 0 {
        assert(white(before[0]));
        assert(all.first() == before[0]);
        assert(all.drop_first() =~= before.drop_first() + rest);
        assert forall|i: int| 0 <= i < before.drop_first().len() implies white(
            #[trigger] before.drop_first()[i],
        ) by {
            assert(before.drop_first()[i] == before[i + 1]);
        }
        lemma_trimmed_start(before.drop_first(), rest);
    } else {
        assert(all =~= rest);
    }
}

proof fn lemma_trimmed_end(rest: Seq<char>, after: Seq<char>)
    requires
        blank_only(after),
        rest.len() > 0,
        !white(rest.last()),
    ensures
        trimmed_end(rest + after) == rest,
    decreases after.len(),
{
    let all = rest + after;
    if after.len() > 0 {
        assert(white(after[after.len() - 1]));
        assert(all.last() == after[after.len() - 1]);
        assert(all.drop_last() =~= rest + after.drop_last());
        assert forall|i: int| 0 <= i < after.drop_last().len() implies white(
            #[trigger] after.drop_last()[i],
        ) by {
            assert(after.drop_last()[i] == after[i]);
        }
        lemma_trimmed_end(rest, after.drop_last());
    } else {
        assert(all =~= rest);
    }
}

proof fn lemma_all_blank(text: Seq<char>)
    requires
        blank_only(text),
    ensures
        trimmed_start(text).len() == 0,
        trimmed(text).len() == 0,
    decreases text.len(),
{
    if text.len() > 0 {
        assert(white(text[0]));
        assert forall|i: int| 0 <= i < text.drop_first().len() implies white(
            #[trigger] text.drop_first()[i],
        ) by {
            assert(text.drop_first()[i] == text[i + 1]);
        }
        lemma_all_blank(text.drop_first());
    }
}

proof fn lemma_start_trimmed(text: Seq<char>)
    ensures
        trimmed_start(text).len() > 0 ==> !white(trimmed_start(text).first()),
    decreases text.len(),
{
    if text.len() > 0 && white(text.first()) {
        lemma_start_trimmed(text.drop_first());
    }
}

proof fn lemma_end_trimmed(text: Seq<char>)
    ensures
        trimmed_end(text).len() > 0 ==> !white(trimmed_end(text).last()),
        trimmed_end(text).len() > 0 ==> trimmed_end(text).first() == text.first(),
    decreases text.len(),
{
    if text.len() > 0 && white(text.last()) {
        lemma_end_trimmed(text.drop_last());
    }
}

proof fn lemma_trimmed_ends(text: Seq<char>)
    ensures
        trimmed(text).len() > 0 ==> !white(trimmed(text).first()) && !white(trimmed(text).last()),
{
    lemma_start_trimmed(text);
    lemma_end_trimmed(trimmed_start(text));
}

/// Among the characters of ASCII the white space is the space and the controls from tab to
/// carriage return.
pub proof fn law_white(c: char)
    ensures
        (c as u32) < 0x80 ==> (white(c) <==> c == ' ' || c == '\t' || c == '\n' || c == '\r' || c
            as u32 == 0x0b || c as u32 == 0x0c),
{
}

/// Lines that are written one after the other are read back as they were.
pub proof fn law_lines(lines: Seq<Seq<char>>)
    requires
        forall|i: int|
            0 <= i < lines.len() ==> (#[trigger] lines[i]).len() > 0 && !lines[i].contains('\n')
                && lines[i].last() != '\r',
    ensures
        lines_of(joined(lines, seq!['\n'])) == lines,
        lines.len() > 0 ==> lines_of(joined(lines, seq!['\n']).push('\n')) == lines,
{
    let nl = '\n';
    let text = joined(lines, seq![nl]);
    if lines.len() == 0 {
        assert(pieces(text, nl) =~= seq![Seq::<char>::empty()]);
        assert(lines_of(text) =~= lines);
    } else {
        lemma_pieces_joined(lines, nl);
        assert(pieces(text, nl) == lines);
        assert(lines[lines.len() - 1].len() > 0);
        assert forall|i: int| 0 <= i < lines.len() implies without_return(#[trigger] lines[i])
            == lines[i] by {}
        assert(lines_of(text) =~= lines);
        let ended = text.push(nl);
        assert(ended.drop_last() =~= text);
        assert(pieces(ended, nl) =~= lines.push(Seq::empty()));
        assert(pieces(ended, nl).drop_last() =~= lines);
        assert(lines_of(ended) =~= lines);
    }
}

proof fn lemma_pieces_joined(parts: Seq<Seq<char>>, sep: char)
    requires
        parts.len() > 0,
        forall|i: int| 0 <= i < parts.len() ==> !(#[trigger] parts[i]).contains(sep),
    ensures
        pieces(joined(parts, seq![sep]), sep) == parts,
    decreases parts.len(),
{
    let last = parts.last();
    assert(!parts[parts.len() - 1].contains(sep));
    lemma_pieces_whole(last, sep);
    if parts.len() == 1 {
        assert(parts =~= seq![last]);
    } else {
        let init = parts.drop_last();
        assert forall|i: int| 0 <= i < init.len() implies !(#[trigger] init[i]).contains(sep) by {
            assert(init[i] == parts[i]);
        }
        lemma_pieces_joined(init, sep);
        lemma_pieces_concat(joined(init, seq![sep]), sep, last);
        assert(joined(parts, seq![sep]) =~= joined(init, seq![sep]).push(sep) + last);
        assert(pieces(joined(parts, seq![sep]), sep) =~= parts);
    }
}

/// A carriage return before the end of a line does not belong to the line.
pub proof fn law_without_return(line: Seq<char>)
    ensures
        without_return(line.push('\r')) == line,
        line.len() > 0 && line.last() != '\r' ==> without_return(line) == line,
{
    assert(line.push('\r').drop_last() =~= line);
}

/// A text ends in another exactly where that other stands behind something.
pub proof fn law_ends_in(stem: Seq<char>, tail: Seq<char>, text: Seq<char>)
    ensures
        ends_in(stem + tail, tail),
        ends_in(text, tail) ==> text == text.take(text.len() - tail.len()) + tail,
{
    assert((stem + tail).skip(stem.len() as int) =~= tail);
    if ends_in(text, tail) {
        assert(text =~= text.take(text.len() - tail.len()) + text.skip(text.len() - tail.len()));
    }
}

proof fn lemma_decimal_value(n: nat)
    ensures
        value(decimal(n)) == n,
        all_digits(decimal(n)),
        decimal(n).len() > 0,
        n > 0 ==> decimal(n).first() != '0',
    decreases n,
{
    if n < 10 {
        let d = decimal(n);
        assert(d.drop_last() =~= Seq::<char>::empty());
        assert(value(d.drop_last()) == 0);
        assert(d.last() as u32 == 0x30 + n);
        assert('0' as u32 == 0x30);
    } else {
        lemma_decimal_value(n / 10);
        let d = decimal(n);
        assert(d.drop_last() =~= decimal(n / 10));
        assert(d.last() as u32 == 0x30 + n % 10);
        assert forall|i: int| 0 <= i < d.len() implies is_digit(#[trigger] d[i]) by {
            if i < d.len() - 1 {
                assert(d[i] == decimal(n / 10)[i]);
            }
        }
    }
}

/// A number that was written is read back as it was, and is written without leading zeros,
/// so that no two numbers look alike.
pub proof fn law_numbers(n: i32, a: nat, b: nat)
    ensures
        spelled(signed_decimal(n as int)) == Some(n as int),
        decimal(a) == decimal(b) ==> a == b,
        a > 0 ==> decimal(a).first() != '0',
        all_digits(decimal(a)),
{
    lemma_decimal_value(a);
    lemma_decimal_value(b);
    let text = signed_decimal(n as int);
    if n < 0 {
        let size = (-n) as nat;
        lemma_decimal_value(size);
        assert(text.drop_first() =~= decimal(size));
    } else {
        lemma_decimal_value(n as nat);
        assert(is_digit(text[0]));
        assert('-' as u32 == 0x2d);
        assert('+' as u32 == 0x2b);
    }
}

/// A text is aligned by spaces before it, just as many as it takes.
pub proof fn law_right_aligned(text: Seq<char>, width: nat)
    ensures
        ({
            let all = right_aligned(text, width);
            &&& all.len() == (if text.len() < width {
                width
            } else {
                text.len()
            })
            &&& all.skip(all.len() - text.len()) == text
            &&& forall|i: int| 0 <= i < all.len() - text.len() ==> #[trigger] all[i] == ' '
        }),
{
    let all = right_aligned(text, width);
    assert(all.skip(all.len() - text.len()) =~= text);
}

/// Joined parts stand in order with the separator between them, and only between them.
pub proof fn law_joined(parts: Seq<Seq<char>>, part: Seq<char>, sep: Seq<char>)
    ensures
        joined(seq![part], sep) == part,
        parts.len() == 0 ==> joined(parts, sep).len() == 0,
        parts.len() > 0 ==> joined(parts.push(part), sep) == joined(parts, sep) + sep + part,
{
    assert(parts.push(part).drop_last() =~= parts);
}

} // verus!

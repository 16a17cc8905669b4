//! The look of a text on a terminal.
use vstd::prelude::*;

use ansi_term::Colour as Ansi;

use crate::text;

verus! {

/// A colour of the terminal's palette.
#[derive(Clone, Copy, Debug, PartialEq, Eq, Structural)]
pub enum Colour {
    Black,
    Red,
    Green,
    Yellow,
    Blue,
    Purple,
    Cyan,
    White,
    Fixed(u8),
    RGB(u8, u8, u8),
}

/// A way to show text.
#[derive(Clone, Copy, Debug, PartialEq, Eq, Structural)]
pub struct Style {
    look: Look,
}

impl View for Style {
    type V = Look;

    closed spec fn view(&self) -> Look {
        self.look
    }
}

/// What a style makes of text.
#[derive(Clone, Copy, Debug, Default, PartialEq, Eq, Structural)]
pub struct Look {
    pub foreground: Option<Colour>,
    pub background: Option<Colour>,
    pub is_bold: bool,
    pub is_dimmed: bool,
    pub is_italic: bool,
    pub is_underline: bool,
    pub is_blink: bool,
    pub is_reverse: bool,
    pub is_hidden: bool,
    pub is_strikethrough: bool,
}

/// The styles of the different kinds of output.
#[derive(Clone, Copy, Debug, PartialEq, Eq, Structural)]
pub struct Colors {
    pub base: Style,
    pub action: Style,
    pub bold: Style,
    pub error: Style,
    pub warning: Style,
}

/// The code that selects a colour; the codes of the foreground begin at 30, those of the
/// background at 40.
pub open spec fn colour_code(first: nat, colour: Colour) -> Seq<char> {
    match colour {
        Colour::Black => text::decimal(first),
        Colour::Red => text::decimal(first + 1),
        Colour::Green => text::decimal(first + 2),
        Colour::Yellow => text::decimal(first + 3),
        Colour::Blue => text::decimal(first + 4),
        Colour::Purple => text::decimal(first + 5),
        Colour::Cyan => text::decimal(first + 6),
        Colour::White => text::decimal(first + 7),
        Colour::Fixed(n) => text::decimal(first + 8) + ";5;"@ + text::decimal(n as nat),
        Colour::RGB(r, g, b) => text::decimal(first + 8) + ";2;"@ + text::decimal(r as nat) + ";"@
            + text::decimal(g as nat) + ";"@ + text::decimal(b as nat),
    }
}

/// A code that is there or is not.
pub open spec fn code(there: bool, code: Seq<char>) -> Seq<Seq<char>> {
    if there {
        seq![code]
    } else {
        Seq::empty()
    }
}

/// The code of a colour that is there or is not.
pub open spec fn colour_codes(first: nat, colour: Option<Colour>) -> Seq<Seq<char>> {
    match colour {
        Some(colour) => seq![colour_code(first, colour)],
        None => Seq::empty(),
    }
}

/// The codes that select a style.
pub open spec fn style_codes(style: Look) -> Seq<Seq<char>> {
    code(style.is_bold, "1"@) + code(style.is_dimmed, "2"@) + code(style.is_italic, "3"@) + code(
        style.is_underline,
        "4"@,
    ) + code(style.is_blink, "5"@) + code(style.is_reverse, "7"@) + code(style.is_hidden, "8"@)
        + code(style.is_strikethrough, "9"@) + colour_codes(40, style.background) + colour_codes(
        30,
        style.foreground,
    )
}

/// A text between the escape sequences that switch a style on and off; the text alone
/// where the style is plain.
pub open spec fn painted(style: Style, text: Seq<char>) -> Seq<char> {
    if style@ == plain() {
        text
    } else {
        "\x1b["@ + text::joined(style_codes(style@), ";"@) + "m"@ + text + "\x1b[0m"@
    }
}

/// `ansi_term`'s `Style::paint`, written out by the `Display` of the string that it
/// gives: the escape sequence with the style's codes, the text, and the sequence that
/// resets. A plain style adds nothing.
#[verifier::external_body]
pub(crate) fn paint(style: Style, text: &str) -> (r: String)
    ensures
        r@ == painted(style, text@),
{
    let [foreground, background] = [style.look.foreground, style.look.background].map(|c| c.map(|c| match c {
        Colour::Black => Ansi::Black,
        Colour::Red => Ansi::Red,
        Colour::Green => Ansi::Green,
        Colour::Yellow => Ansi::Yellow,
        Colour::Blue => Ansi::Blue,
        Colour::Purple => Ansi::Purple,
        Colour::Cyan => Ansi::Cyan,
        Colour::White => Ansi::White,
        Colour::Fixed(n) => Ansi::Fixed(n),
        Colour::RGB(r, g, b) => Ansi::RGB(r, g, b),
    }));
    let Look { is_bold, is_dimmed, is_italic, is_underline, is_blink, is_reverse, is_hidden, is_strikethrough, .. } = style.look;
    ansi_term::Style { foreground, background, is_bold, is_dimmed, is_italic, is_underline, is_blink, is_reverse, is_hidden, is_strikethrough }.paint(text).to_string()
}

/// The look that leaves a text as it is.
pub open spec fn plain() -> Look {
    Look {
        foreground: None,
        background: None,
        is_bold: false,
        is_dimmed: false,
        is_italic: false,
        is_underline: false,
        is_blink: false,
        is_reverse: false,
        is_hidden: false,
        is_strikethrough: false,
    }
}

impl Style {
    /// The style that leaves a text as it is.
    pub fn new() -> (r: Style)
        ensures
            r@ == plain(),
    {
        Style {
            look: Look {
                foreground: None,
                background: None,
                is_bold: false,
                is_dimmed: false,
                is_italic: false,
                is_underline: false,
                is_blink: false,
                is_reverse: false,
                is_hidden: false,
                is_strikethrough: false,
            },
        }
    }

    /// The style with a look.
    pub fn of(look: Look) -> (r: Style)
        ensures
            r@ == look,
    {
        Style { look }
    }

    /// The look of the style.
    pub fn look(self) -> (r: Look)
        ensures
            r == self@,
    {
        self.look
    }
}

/// Two painted texts with a space between them.
pub open spec fn heading(mark: Style, title_style: Style, title: Seq<char>) -> Seq<char> {
    painted(mark, "::"@) + " "@ + painted(title_style, title)
}

/// Writes a painted `::` and a painted title.
pub fn heading_text(mark: Style, title_style: Style, title: &str) -> (r: String)
    ensures
        r@ == heading(mark, title_style, title@),
{
    let mut out = paint(mark, "::");
    out.append(" ");
    out.append(paint(title_style, title).as_str());
    out
}

/// A heading with a list after it. The list starts in column `start` of the heading's
/// line, its items `sep` apart; where a line of `cols` columns is full, the list goes
/// on in column `indent` of the next.
pub struct Listing {
    pub head: String,
    pub style: Style,
    pub start: usize,
    pub indent: usize,
    pub cols: Option<usize>,
    pub sep: String,
    pub items: Vec<String>,
}

#[verifier::ext_equal]
pub struct ListingView {
    pub head: Seq<char>,
    pub style: Look,
    pub start: nat,
    pub indent: nat,
    pub cols: Option<usize>,
    pub sep: Seq<char>,
    pub items: Seq<Seq<char>>,
}

impl View for Listing {
    type V = ListingView;

    open spec fn view(&self) -> ListingView {
        ListingView {
            head: self.head@,
            style: self.style@,
            start: self.start as nat,
            indent: self.indent as nat,
            cols: self.cols,
            sep: self.sep@,
            items: text::views(self.items@),
        }
    }
}

/// The lists that are there, in order.
pub open spec fn present(lists: Seq<Option<ListingView>>) -> Seq<ListingView> {
    lists.filter(|list: Option<ListingView>| list is Some).map_values(
        |list: Option<ListingView>| list->0,
    )
}

/// Keeping the lists that are there, one list at a time.
pub proof fn lemma_present_push(lists: Seq<Option<ListingView>>, n: int)
    requires
        0 <= n < lists.len(),
    ensures
        present(lists.take(0)) == Seq::<ListingView>::empty(),
        present(lists.take(n + 1)) == (match lists[n] {
            Some(list) => present(lists.take(n)).push(list),
            None => present(lists.take(n)),
        }),
{
    let there = |list: Option<ListingView>| list is Some;
    let inner = |list: Option<ListingView>| list->0;
    let before = lists.take(n).filter(there);
    text::lemma_take_push(lists, n);
    text::lemma_filter_push(lists.take(n), lists[n], there);
    assert(before.push(lists[n]).map_values(inner) =~= before.map_values(inner).push(lists[n]->0));
    reveal(Seq::filter);
    assert(present(lists.take(0)) =~= Seq::<ListingView>::empty());
}

/// Appends a list, where there is one.
pub fn push_some(out: &mut Vec<Listing>, listing: Option<Listing>)
    ensures
        text::views(final(out)@) == (match listing {
            Some(listing) => text::views(old(out)@).push(listing@),
            None => text::views(old(out)@),
        }),
{
    if let Some(listing) = listing {
        proof {
            text::lemma_views_push(out@, listing);
        }
        out.push(listing);
    }
}

/// The lists that are there are kept, in order, and no other.
pub proof fn law_present(lists: Seq<Option<ListingView>>, list: ListingView)
    ensures
        present(lists).contains(list) <==> lists.contains(Some(list)),
        present(lists.push(Some(list))) == present(lists).push(list),
        present(lists.push(None)) == present(lists),
        lists.len() == 0 ==> present(lists).len() == 0,
{
    let there = |list: Option<ListingView>| list is Some;
    let inner = |list: Option<ListingView>| list->0;
    reveal(Seq::filter);
    text::lemma_filter_mapped(lists, there, inner, list);
    text::lemma_filter_push(lists, Some(list), there);
    text::lemma_filter_push(lists, None, there);
    let kept = lists.filter(there);
    assert(kept.push(Some(list)).map_values(inner) =~= kept.map_values(inner).push(list));
    if lists.contains(Some(list)) {
        let i = choose|i: int| 0 <= i < lists.len() && lists[i] == Some(list);
        assert(there(lists[i]) && inner(lists[i]) == list);
    }
    if present(lists).contains(list) {
        let i = choose|i: int|
            0 <= i < lists.len() && there(#[trigger] lists[i]) && inner(lists[i]) == list;
        assert(lists[i] == Some(list));
    }
}

/// A plain style leaves a text alone; any other puts it, as it is, between what switches the
/// style on and what switches it off. A heading is a mark, a space and a title.
pub proof fn law_painted(style: Style, text: Seq<char>, mark: Style)
    ensures
        style@ == plain() ==> painted(style, text) == text,
        style@ != plain() ==> painted(style, text).len() > text.len() && painted(style, text).subrange(
            painted(style, text).len() - 4 - text.len(),
            painted(style, text).len() - 4,
        ) == text && painted(style, text).skip(painted(style, text).len() - 4) == "\x1b[0m"@,
        mark@ == plain() && style@ == plain() ==> heading(mark, style, text) == ":: "@ + text,
        heading(mark, style, text).len() == painted(mark, "::"@).len() + 1 + painted(
            style,
            text,
        ).len(),
        heading(mark, style, text).skip(painted(mark, "::"@).len() as int + 1) == painted(style, text),
{
    reveal_strlit("\x1b[0m");
    reveal_strlit("\x1b[");
    reveal_strlit("::");
    reveal_strlit(" ");
    reveal_strlit(":: ");
    let all = painted(style, text);
    if style@ != plain() {
        assert(all.subrange(all.len() - 4 - text.len(), all.len() - 4) =~= text);
        assert(all.skip(all.len() - 4) =~= "\x1b[0m"@);
    }
    assert("::"@ + " "@ =~= ":: "@);
    let head = heading(mark, style, text);
    assert(head.skip(painted(mark, "::"@).len() as int + 1) =~= all);
}

} // verus!

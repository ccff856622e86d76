//! Sizes and colours.
use crate::text;
use vstd::prelude::*;
use vstd::string::StrSliceExecFns;

verus! {

pub const MESSAGE_MARGIN: u16 = 2;

pub const ITEM_GAP: u16 = 1;

pub const BOX_PADDING_X: u16 = 2;

pub const BOX_PADDING_TOP: u16 = 1;

pub const BOX_PADDING_BOTTOM: u16 = 1;

pub const COLLAPSE_AFTER: usize = 16;

pub const COLLAPSED_LINES: usize = 12;

#[derive(Clone, Copy, Debug, PartialEq, Eq, Structural)]
pub enum Color {
    Gray,
    DarkGray,
    Blue,
    Yellow,
    Cyan,
    Magenta,
    Green,
    Red,
    LightCyan,
    LightMagenta,
    LightGreen,
    LightRed,
    Rgb(u8, u8, u8),
}

/// How a text is shown.
#[derive(Clone, Copy, Debug, PartialEq, Eq, Structural)]
pub struct Style {
    pub fg: Color,
    pub bold: bool,
}

/// A style without emphasis.
pub open spec fn plain(fg: Color) -> Style {
    Style { fg, bold: false }
}

fn in_color(fg: Color) -> (r: Style)
    ensures
        r == plain(fg),
{
    Style { fg, bold: false }
}

pub fn primary_style() -> (r: Style)
    ensures
        r == plain(Color::Gray),
{
    in_color(Color::Gray)
}

pub fn secondary_style() -> (r: Style)
    ensures
        r == plain(Color::DarkGray),
{
    in_color(Color::DarkGray)
}

pub fn alert_style() -> (r: Style)
    ensures
        r == plain(Color::LightRed),
{
    in_color(Color::LightRed)
}

pub fn box_background() -> (r: Color)
    ensures
        r == Color::Rgb(34, 37, 44),
{
    Color::Rgb(34, 37, 44)
}

pub fn box_hover_background() -> (r: Color)
    ensures
        r == Color::Rgb(47, 51, 60),
{
    Color::Rgb(47, 51, 60)
}

pub fn alert_background() -> (r: Color)
    ensures
        r == Color::Rgb(58, 35, 40),
{
    Color::Rgb(58, 35, 40)
}

pub fn diff_background() -> (r: Color)
    ensures
        r == Color::Rgb(29, 39, 38),
{
    Color::Rgb(29, 39, 38)
}

pub fn diff_header_style() -> (r: Style)
    ensures
        r == plain(Color::LightCyan),
{
    in_color(Color::LightCyan)
}

pub fn diff_add_style() -> (r: Style)
    ensures
        r == plain(Color::LightGreen),
{
    in_color(Color::LightGreen)
}

pub fn diff_remove_style() -> (r: Style)
    ensures
        r == plain(Color::LightRed),
{
    in_color(Color::LightRed)
}

pub fn diff_hunk_style() -> (r: Style)
    ensures
        r == plain(Color::LightCyan),
{
    in_color(Color::LightCyan)
}

// ---------------------------------------------------------------------------
// Modes
// ---------------------------------------------------------------------------

/// A character in upper case.
pub uninterp spec fn uppercase(c: char) -> Seq<char>;

/// Calls `char::to_uppercase`. Claims that the upper case depends on the character
/// alone.
#[verifier::external_body]
fn to_uppercase(c: char) -> (r: String)
    ensures
        r@ == uppercase(c),
{
    c.to_uppercase().to_string()
}

/// How a mode is called: with its first character in upper case.
pub open spec fn label_of(mode: Seq<char>) -> Seq<char> {
    if mode.len() == 0 {
        "Mode"@
    } else {
        uppercase(mode[0]) + mode.skip(1)
    }
}

/// How a mode is called.
pub fn mode_label(mode: &str) -> (r: String)
    ensures
        r@ == label_of(mode@),
{
    let n: usize = mode.unicode_len();
    if n == 0 {
        return text::owned("Mode");
    }
    let first = to_uppercase(mode.get_char(0));
    let rest = mode.substring_char(1, n);
    proof {
        assert(rest@ =~= mode@.skip(1));
    }
    text::cat2(first.as_str(), rest)
}

/// The names of the modes that have no colour of their own, in lower case.
pub open spec fn other_modes(modes: Seq<Seq<char>>) -> Seq<Seq<char>>
    decreases modes.len(),
{
    if modes.len() == 0 {
        Seq::empty()
    } else {
        let before = other_modes(modes.drop_last());
        let name = text::ascii_lowered(modes.last());
        if name == "build"@ || name == "plan"@ {
            before
        } else {
            before.push(name)
        }
    }
}

/// Texts without those that repeat the one before them.
pub open spec fn unrepeated(list: Seq<Seq<char>>) -> Seq<Seq<char>>
    decreases list.len(),
{
    if list.len() == 0 {
        Seq::empty()
    } else {
        let before = unrepeated(list.drop_last());
        if before.len() > 0 && before.last() == list.last() {
            before
        } else {
            before.push(list.last())
        }
    }
}

/// The first place of a text, or zero where it has none.
pub open spec fn place_or_zero(list: Seq<Seq<char>>, s: Seq<char>, from: int) -> int
    decreases list.len() - from,
{
    if from < 0 || from >= list.len() {
        0
    } else if list[from] == s {
        from
    } else {
        place_or_zero(list, s, from + 1)
    }
}

/// The colour at a place of the palette, which repeats.
pub open spec fn palette(place: int) -> Color {
    let k = place % 8;
    if k == 0 {
        Color::Cyan
    } else if k == 1 {
        Color::Magenta
    } else if k == 2 {
        Color::Green
    } else if k == 3 {
        Color::Red
    } else if k == 4 {
        Color::LightCyan
    } else if k == 5 {
        Color::LightMagenta
    } else if k == 6 {
        Color::LightGreen
    } else {
        Color::LightRed
    }
}

/// The colour of a mode: that of building and that of planning are fixed, and the
/// others take theirs in the order of their names.
pub open spec fn color_of(mode: Seq<char>, modes: Seq<Seq<char>>) -> Color {
    let name = text::ascii_lowered(mode);
    if name == "build"@ {
        Color::Blue
    } else if name == "plan"@ {
        Color::Yellow
    } else {
        palette(
            place_or_zero(unrepeated(text::sorted(other_modes(modes))), name, 0),
        )
    }
}

fn color_at(place: usize) -> (r: Color)
    ensures
        r == palette(place as int),
{
    let k: usize = place % 8;
    if k == 0 {
        Color::Cyan
    } else if k == 1 {
        Color::Magenta
    } else if k == 2 {
        Color::Green
    } else if k == 3 {
        Color::Red
    } else if k == 4 {
        Color::LightCyan
    } else if k == 5 {
        Color::LightMagenta
    } else if k == 6 {
        Color::LightGreen
    } else {
        Color::LightRed
    }
}

fn collect_others(modes: &[String]) -> (r: Vec<String>)
    ensures
        text::texts(r@) == other_modes(text::texts(modes@)),
{
    let ghost all = text::texts(modes@);
    let mut names = text::no_texts();
    let mut i: usize = 0;
    proof {
        assert(all.take(0) =~= Seq::empty());
    }
    while i < modes.len()
        invariant
            i <= modes@.len(),
            all == text::texts(modes@),
            text::texts(names@) == other_modes(all.take(i as int)),
        decreases modes@.len() - i,
    {
        proof {
            assert(all.take(i + 1).drop_last() =~= all.take(i as int));
            assert(all.take(i + 1).last() == modes@[i as int]@);
        }
        let name = text::lower_text(modes[i].as_str());
        if !text::same_text(name.as_str(), "build") && !text::same_text(name.as_str(), "plan") {
            text::push_text(&mut names, name.as_str());
        }
        i += 1;
    }
    proof {
        assert(all.take(i as int) =~= all);
    }
    names
}

fn drop_repeats(list: &[String]) -> (r: Vec<String>)
    ensures
        text::texts(r@) == unrepeated(text::texts(list@)),
{
    let ghost all = text::texts(list@);
    let mut kept = text::no_texts();
    let mut i: usize = 0;
    proof {
        assert(all.take(0) =~= Seq::empty());
    }
    while i < list.len()
        invariant
            i <= list@.len(),
            all == text::texts(list@),
            text::texts(kept@) == unrepeated(all.take(i as int)),
        decreases list@.len() - i,
    {
        let n: usize = kept.len();
        proof {
            assert(all.take(i + 1).drop_last() =~= all.take(i as int));
            assert(all.take(i + 1).last() == list@[i as int]@);
            if n > 0 {
                assert(text::texts(kept@).last() == kept@[n - 1]@);
            }
        }
        let repeats = n > 0 && text::same_text(kept[n - 1].as_str(), list[i].as_str());
        if !repeats {
            text::push_text(&mut kept, list[i].as_str());
        }
        i += 1;
    }
    proof {
        assert(all.take(i as int) =~= all);
    }
    kept
}

fn find_place(list: &[String], s: &str) -> (r: usize)
    ensures
        r == place_or_zero(text::texts(list@), s@, 0),
{
    let mut i: usize = 0;
    while i < list.len()
        invariant
            i <= list@.len(),
            place_or_zero(text::texts(list@), s@, 0) == place_or_zero(
                text::texts(list@),
                s@,
                i as int,
            ),
        decreases list@.len() - i,
    {
        proof {
            assert(text::texts(list@)[i as int] == list@[i as int]@);
        }
        if text::same_text(list[i].as_str(), s) {
            return i;
        }
        i += 1;
    }
    0
}

/// The colour of a mode.
pub fn mode_color(mode: &str, modes: &[String]) -> (r: Color)
    ensures
        r == color_of(mode@, text::texts(modes@)),
{
    let name = text::lower_text(mode);
    if text::same_text(name.as_str(), "build") {
        return Color::Blue;
    }
    if text::same_text(name.as_str(), "plan") {
        return Color::Yellow;
    }
    let others = collect_others(modes);
    let sorted = text::sort(others.as_slice());
    let names = drop_repeats(sorted.as_slice());
    color_at(find_place(names.as_slice(), name.as_str()))
}

proof fn lemma_palette_is_not_reserved(place: int)
    ensures
        palette(place) != Color::Blue,
        palette(place) != Color::Yellow,
{
}

/// The colours of building and planning belong to them alone.
pub proof fn law_two_colours_are_reserved(mode: Seq<char>, modes: Seq<Seq<char>>)
    ensures
        color_of(mode, modes) == Color::Blue <==> text::ascii_lowered(mode) == "build"@,
        color_of(mode, modes) == Color::Yellow ==> text::ascii_lowered(mode) == "plan"@,
{
    lemma_palette_is_not_reserved(
        place_or_zero(
            unrepeated(text::sorted(other_modes(modes))),
            text::ascii_lowered(mode),
            0,
        ),
    );
}

/// Modes have the same colour whatever their case, and the colours of the palette are all
/// different.
pub proof fn law_colours_tell_modes_apart(
    mode: Seq<char>,
    other: Seq<char>,
    modes: Seq<Seq<char>>,
    i: int,
    j: int,
)
    requires
        0 <= i < j < 8,
    ensures
        text::ascii_lowered(mode) == text::ascii_lowered(other) ==> color_of(mode, modes)
            == color_of(other, modes),
        palette(i) != palette(j),
        palette(i + 8) == palette(i),
{
}

/// A mode has its place in the list of modes. Repetitions next to each other are left out,
/// and nothing else; the two modes with colours of their own are not in the list.
pub proof fn law_modes_have_their_place(
    list: Seq<Seq<char>>,
    s: Seq<char>,
    modes: Seq<Seq<char>>,
)
    ensures
        list.contains(s) ==> 0 <= place_or_zero(list, s, 0) < list.len() && list[place_or_zero(
            list,
            s,
            0,
        )] == s,
        unrepeated(list).contains(s) <==> list.contains(s),
        !other_modes(modes).contains("build"@),
        !other_modes(modes).contains("plan"@),
        modes.contains(s) && text::ascii_lowered(s) != "build"@ && text::ascii_lowered(s)
            != "plan"@ ==> other_modes(modes).contains(text::ascii_lowered(s)),
{
    lemma_place(list, s, 0);
    lemma_unrepeated(list, s);
    lemma_other_modes(modes, s);
}

proof fn lemma_place(list: Seq<Seq<char>>, s: Seq<char>, from: int)
    requires
        0 <= from <= list.len(),
    ensures
        (exists|i: int| from <= i < list.len() && #[trigger] list[i] == s) ==> from
            <= place_or_zero(list, s, from) < list.len() && list[place_or_zero(list, s, from)] == s,
    decreases list.len() - from,
{
    if from < list.len() && list[from] != s {
        lemma_place(list, s, from + 1);
    }
}

proof fn lemma_unrepeated(list: Seq<Seq<char>>, s: Seq<char>)
    ensures
        unrepeated(list).contains(s) <==> list.contains(s),
    decreases list.len(),
{
    if list.len() > 0 {
        let front = list.drop_last();
        let before = unrepeated(front);
        let all = unrepeated(list);
        lemma_unrepeated(front, s);
        if front.contains(s) {
            assert(list[front.index_of(s)] == s);
        }
        if before.contains(s) {
            assert(all[before.index_of(s)] == s);
        }
        assert(all[all.len() - 1] == list.last());
        if list.contains(s) {
            let k = list.index_of(s);
            if k < front.len() {
                assert(front[k] == s);
            }
        }
        if all.contains(s) {
            let k = all.index_of(s);
            if k < before.len() {
                assert(before[k] == s);
            } else {
                assert(list[list.len() - 1] == s);
            }
        }
    }
}

proof fn lemma_other_modes(modes: Seq<Seq<char>>, s: Seq<char>)
    ensures
        !other_modes(modes).contains("build"@),
        !other_modes(modes).contains("plan"@),
        modes.contains(s) && text::ascii_lowered(s) != "build"@ && text::ascii_lowered(s)
            != "plan"@ ==> other_modes(modes).contains(text::ascii_lowered(s)),
    decreases modes.len(),
{
    if modes.len() > 0 {
        let front = modes.drop_last();
        let before = other_modes(front);
        let all = other_modes(modes);
        let name = text::ascii_lowered(s);
        lemma_other_modes(front, s);
        if before.contains(name) {
            assert(all[before.index_of(name)] == name);
        }
        if modes.contains(s) {
            let k = modes.index_of(s);
            if k < front.len() {
                assert(front[k] == s);
            } else if name != "build"@ && name != "plan"@ {
                assert(all[all.len() - 1] == name);
            }
        }
        if all.contains("build"@) {
            let k = all.index_of("build"@);
            if k < before.len() {
                assert(before[k] == "build"@);
            }
        }
        if all.contains("plan"@) {
            let k = all.index_of("plan"@);
            if k < before.len() {
                assert(before[k] == "plan"@);
            }
        }
    }
}

} // verus!

//! How the transcript is laid out and placed on the screen.
use crate::text;
use crate::ui::columns;
use crate::ui::terminal::theme;
use crate::ui::terminal::theme::{Color, Style};
use crate::ui::terminal::timeline;
use crate::ui::terminal::timeline::{TranscriptItem, TranscriptItemId};
use vstd::prelude::*;

verus! {

// ---------------------------------------------------------------------------
// Layout
// ---------------------------------------------------------------------------

/// A line of an item.
#[derive(Clone, Debug, PartialEq, Eq)]
pub struct RenderLine {
    pub text: String,
    pub style: Style,
}

/// How an item is laid out.
pub struct ItemLayout {
    pub lines: Vec<RenderLine>,
    pub left_padding: u16,
    pub background: Option<Color>,
}

pub open spec fn line_views(list: Seq<RenderLine>) -> Seq<(Seq<char>, Style)> {
    Seq::new(list.len(), |i: int| (list[i].text@, list[i].style))
}

/// Lines in one style.
pub open spec fn styled(lines: Seq<Seq<char>>, style: Style) -> Seq<(Seq<char>, Style)> {
    Seq::new(lines.len(), |i: int| (lines[i], style))
}

/// How many columns are inside a box.
pub open spec fn inner_columns(width: u16) -> nat {
    if width > 5 {
        (width - 4) as nat
    } else {
        1
    }
}

/// The lines of what the user said.
pub open spec fn user_lines(
    mode: Seq<char>,
    content: Seq<char>,
    width: u16,
    modes: Seq<Seq<char>>,
) -> Seq<(Seq<char>, Style)> {
    seq![
        (theme::label_of(mode), Style { fg: theme::color_of(mode, modes), bold: true }),
        (Seq::<char>::empty(), theme::plain(Color::Gray)),
    ] + styled(columns::wrapped(content, inner_columns(width)), theme::plain(Color::Gray))
}

/// The lines of a note.
pub open spec fn info_lines(content: Seq<char>, alert: bool, width: u16) -> Seq<
    (Seq<char>, Style),
> {
    styled(
        columns::wrapped(content, inner_columns(width)),
        theme::plain(
            if alert {
                Color::LightRed
            } else {
                Color::Gray
            },
        ),
    )
}

/// The style of a line of a difference.
pub open spec fn diff_style(line: Seq<char>) -> Style {
    if text::starts_with(line, "+"@) && !text::starts_with(line, "+++"@) {
        theme::plain(Color::LightGreen)
    } else if text::starts_with(line, "-"@) && !text::starts_with(line, "---"@) {
        theme::plain(Color::LightRed)
    } else if text::starts_with(line, "@@"@) {
        theme::plain(Color::LightCyan)
    } else {
        theme::plain(Color::DarkGray)
    }
}

/// The lines of the lines of a difference.
pub open spec fn changed_lines(lines: Seq<Seq<char>>, width: u16) -> Seq<(Seq<char>, Style)>
    decreases lines.len(),
{
    if lines.len() == 0 {
        Seq::empty()
    } else {
        changed_lines(lines.drop_last(), width) + styled(
            columns::wrapped(lines.last(), inner_columns(width)),
            diff_style(lines.last()),
        )
    }
}

/// The lines of a difference.
pub open spec fn diff_lines(file: Seq<char>, content: Seq<char>, width: u16) -> Seq<
    (Seq<char>, Style),
> {
    seq![(file, theme::plain(Color::LightCyan))] + changed_lines(text::lines_of(content), width)
}

/// Lines, of which only the first are shown where there are many.
pub open spec fn collapsed(lines: Seq<(Seq<char>, Style)>, expanded: bool) -> Seq<
    (Seq<char>, Style),
> {
    if expanded || lines.len() <= theme::COLLAPSE_AFTER {
        lines
    } else {
        lines.take(theme::COLLAPSED_LINES as int) + seq![
            (Seq::<char>::empty(), theme::plain(Color::DarkGray)),
            ("Click to expand"@, theme::plain(Color::DarkGray)),
        ]
    }
}

/// Lines with a blank line above and one below.
pub open spec fn padded(lines: Seq<(Seq<char>, Style)>) -> Seq<(Seq<char>, Style)> {
    let blank = (Seq::<char>::empty(), theme::plain(Color::Gray));
    seq![blank] + lines + seq![blank]
}

/// A text in one line.
pub open spec fn on_one_line(s: Seq<char>) -> Seq<char> {
    Seq::new(
        s.len(),
        |i: int|
            if s[i] == '\n' || s[i] == '\r' {
                ' '
            } else {
                s[i]
            },
    )
}

/// A width of one column at least.
pub open spec fn usable(width: u16) -> u16 {
    if width == 0 {
        1
    } else {
        width
    }
}

/// The lines of a box before it is collapsed; other items have none.
pub open spec fn box_lines(item: timeline::ItemView, width: u16, modes: Seq<Seq<char>>) -> Seq<
    (Seq<char>, Style),
> {
    match item {
        timeline::ItemView::UserBox(id, mode, content) => user_lines(mode, content, width, modes),
        timeline::ItemView::InfoBox(id, content, alert) => info_lines(content, alert, width),
        timeline::ItemView::Diff(id, file, content) => diff_lines(file, content, width),
        _ => Seq::empty(),
    }
}

/// The lines of an item.
pub open spec fn item_lines(
    item: timeline::ItemView,
    width: u16,
    expanded: bool,
    modes: Seq<Seq<char>>,
) -> Seq<(Seq<char>, Style)> {
    let width = usable(width);
    match item {
        timeline::ItemView::AgentText(id, content, reasoning) => styled(
            columns::wrapped(content, width as nat),
            theme::plain(
                if reasoning {
                    Color::DarkGray
                } else {
                    Color::Gray
                },
            ),
        ),
        timeline::ItemView::SubtleNote(id, content) => seq![
            (on_one_line(content), theme::plain(Color::DarkGray)),
        ],
        _ => padded(collapsed(box_lines(item, width, modes), expanded)),
    }
}

/// How far an item is indented.
pub open spec fn indent(item: timeline::ItemView) -> u16 {
    if timeline::is_boxed(item) {
        theme::BOX_PADDING_X
    } else {
        0
    }
}

/// What an item is painted on.
pub open spec fn ground(item: timeline::ItemView) -> Option<Color> {
    match item {
        timeline::ItemView::UserBox(id, m, c) => Some(Color::Rgb(34, 37, 44)),
        timeline::ItemView::InfoBox(id, c, alert) => Some(
            if alert {
                Color::Rgb(58, 35, 40)
            } else {
                Color::Rgb(34, 37, 44)
            },
        ),
        timeline::ItemView::Diff(id, f, c) => Some(Color::Rgb(29, 39, 38)),
        _ => None,
    }
}

fn inner_width(width: u16) -> (r: usize)
    ensures
        r == inner_columns(width),
{
    if width > 5 {
        (width - 4) as usize
    } else {
        1
    }
}

fn push_line(list: &mut Vec<RenderLine>, text: String, style: Style)
    ensures
        line_views(final(list)@) == line_views(old(list)@).push((text@, style)),
{
    let ghost before = line_views(list@);
    let ghost shown = text@;
    list.push(RenderLine { text, style });
    proof {
        assert(line_views(list@) =~= before.push((shown, style)));
    }
}

fn push_styled(list: &mut Vec<RenderLine>, lines: &[String], style: Style)
    ensures
        line_views(final(list)@) == line_views(old(list)@) + styled(text::texts(lines@), style),
{
    let ghost first = line_views(list@);
    let ghost all = styled(text::texts(lines@), style);
    let mut i: usize = 0;
    proof {
        assert(first + all.take(0) =~= first);
    }
    while i < lines.len()
        invariant
            i <= lines@.len(),
            all == styled(text::texts(lines@), style),
            line_views(list@) == first + all.take(i as int),
        decreases lines@.len() - i,
    {
        let line = text::owned(lines[i].as_str());
        proof {
            assert(all[i as int] == (line@, style));
            assert((first + all.take(i as int)).push(all[i as int]) =~= first + all.take(i + 1));
        }
        push_line(list, line, style);
        i += 1;
    }
    proof {
        assert(all.take(i as int) =~= all);
    }
}

fn no_lines() -> (r: Vec<RenderLine>)
    ensures
        line_views(r@) == Seq::<(Seq<char>, Style)>::empty(),
{
    let r: Vec<RenderLine> = Vec::new();
    proof {
        assert(line_views(r@) =~= Seq::empty());
    }
    r
}

fn user_box_lines(mode: &str, content: &str, width: u16, modes: &[String]) -> (r: Vec<RenderLine>)
    ensures
        line_views(r@) == user_lines(mode@, content@, width, text::texts(modes@)),
{
    let wrapped = columns::wrap_text(content, inner_width(width));
    let style = Style { fg: theme::mode_color(mode, modes), bold: true };
    let mut lines = no_lines();
    push_line(&mut lines, theme::mode_label(mode), style);
    push_line(&mut lines, String::new(), theme::primary_style());
    proof {
        assert(line_views(lines@) =~= seq![
            (theme::label_of(mode@), style),
            (Seq::<char>::empty(), theme::plain(Color::Gray)),
        ]);
    }
    push_styled(&mut lines, wrapped.as_slice(), theme::primary_style());
    lines
}

fn info_box_lines(content: &str, alert: bool, width: u16) -> (r: Vec<RenderLine>)
    ensures
        line_views(r@) == info_lines(content@, alert, width),
{
    let style = if alert {
        theme::alert_style()
    } else {
        theme::primary_style()
    };
    let wrapped = columns::wrap_text(content, inner_width(width));
    let mut lines = no_lines();
    push_styled(&mut lines, wrapped.as_slice(), style);
    proof {
        assert(line_views(lines@) =~= info_lines(content@, alert, width));
    }
    lines
}

fn line_style(line: &str) -> (r: Style)
    ensures
        r == diff_style(line@),
{
    if text::begins(line, "+") && !text::begins(line, "+++") {
        theme::diff_add_style()
    } else if text::begins(line, "-") && !text::begins(line, "---") {
        theme::diff_remove_style()
    } else if text::begins(line, "@@") {
        theme::diff_hunk_style()
    } else {
        theme::secondary_style()
    }
}

fn diff_box_lines(file: &str, content: &str, width: u16) -> (r: Vec<RenderLine>)
    ensures
        line_views(r@) == diff_lines(file@, content@, width),
{
    let source = text::split_lines(content);
    let ghost all = text::texts(source@);
    let mut lines = no_lines();
    push_line(&mut lines, text::owned(file), theme::diff_header_style());
    let ghost first = line_views(lines@);
    let mut i: usize = 0;
    proof {
        assert(first =~= seq![(file@, theme::plain(Color::LightCyan))]);
        assert(all.take(0) =~= Seq::empty());
        assert(first + changed_lines(all.take(0), width) =~= first);
    }
    while i < source.len()
        invariant
            i <= source@.len(),
            all == text::texts(source@),
            line_views(lines@) == first + changed_lines(all.take(i as int), width),
        decreases source@.len() - i,
    {
        let line = source[i].as_str();
        let style = line_style(line);
        let wrapped = columns::wrap_text(line, inner_width(width));
        proof {
            assert(all.take(i + 1).drop_last() =~= all.take(i as int));
            assert(all.take(i + 1).last() == line@);
            let more = styled(text::texts(wrapped@), style);
            assert(first + changed_lines(all.take(i as int), width) + more =~= first
                + changed_lines(all.take(i + 1), width));
        }
        push_styled(&mut lines, wrapped.as_slice(), style);
        i += 1;
    }
    proof {
        assert(all.take(i as int) =~= all);
    }
    lines
}

fn collapse_lines(lines: Vec<RenderLine>, expanded: bool) -> (r: Vec<RenderLine>)
    ensures
        line_views(r@) == collapsed(line_views(lines@), expanded),
{
    if expanded || lines.len() <= theme::COLLAPSE_AFTER {
        return lines;
    }
    let ghost all = line_views(lines@);
    let mut lines = lines;
    lines.truncate(theme::COLLAPSED_LINES);
    proof {
        assert(line_views(lines@) =~= all.take(theme::COLLAPSED_LINES as int));
    }
    push_line(&mut lines, String::new(), theme::secondary_style());
    push_line(&mut lines, text::owned("Click to expand"), theme::secondary_style());
    proof {
        assert(line_views(lines@) =~= collapsed(all, expanded));
    }
    lines
}

fn padded_box_lines(lines: Vec<RenderLine>) -> (r: Vec<RenderLine>)
    ensures
        line_views(r@) == padded(line_views(lines@)),
{
    let ghost all = line_views(lines@);
    let mut lines = lines;
    let ghost before = lines@;
    let mut out = no_lines();
    push_line(&mut out, String::new(), theme::primary_style());
    let ghost top = out@;
    out.append(&mut lines);
    proof {
        assert(out@ =~= top + before);
        assert(line_views(out@) =~= line_views(top) + all);
    }
    push_line(&mut out, String::new(), theme::primary_style());
    proof {
        assert(line_views(out@) =~= padded(all));
    }
    out
}

fn join_lines(s: &str) -> (r: String)
    ensures
        r@ == on_one_line(s@),
{
    let cs = text::to_chars(s);
    let mut out = String::new();
    let mut i: usize = 0;
    while i < cs.len()
        invariant
            i <= cs@.len(),
            cs@ == s@,
            out@ =~= on_one_line(s@).take(i as int),
        decreases cs@.len() - i,
    {
        let c = cs[i];
        if c == '\n' || c == '\r' {
            out.push(' ');
        } else {
            out.push(c);
        }
        i += 1;
    }
    proof {
        assert(on_one_line(s@).take(i as int) =~= on_one_line(s@));
    }
    out
}

fn boxed_lines(item: &TranscriptItem, width: u16, modes: &[String]) -> (r: Vec<RenderLine>)
    ensures
        line_views(r@) == box_lines(item@, width, text::texts(modes@)),
{
    match item {
        TranscriptItem::UserBox { id: _, mode, content } => user_box_lines(
            mode.as_str(),
            content.as_str(),
            width,
            modes,
        ),
        TranscriptItem::InfoBox { id: _, content, alert } => info_box_lines(
            content.as_str(),
            *alert,
            width,
        ),
        TranscriptItem::Diff { id: _, file, content } => diff_box_lines(
            file.as_str(),
            content.as_str(),
            width,
        ),
        _ => no_lines(),
    }
}

/// Lays out an item.
pub fn item_layout(item: &TranscriptItem, width: u16, expanded: bool, modes: &[String]) -> (r:
    ItemLayout)
    ensures
        line_views(r.lines@) == item_lines(item@, width, expanded, text::texts(modes@)),
        r.left_padding == indent(item@),
        r.background == ground(item@),
{
    let width: u16 = if width == 0 {
        1
    } else {
        width
    };
    match item {
        TranscriptItem::AgentText { id: _, content, reasoning } => {
            let wrapped = columns::wrap_text(content.as_str(), width as usize);
            let style = if *reasoning {
                theme::secondary_style()
            } else {
                theme::primary_style()
            };
            let mut lines = no_lines();
            push_styled(&mut lines, wrapped.as_slice(), style);
            proof {
                assert(line_views(lines@) =~= styled(text::texts(wrapped@), style));
            }
            ItemLayout { lines, left_padding: 0, background: None }
        },
        TranscriptItem::SubtleNote { id: _, content } => {
            let shown = join_lines(content.as_str());
            let ghost s = shown@;
            let mut lines = no_lines();
            push_line(&mut lines, shown, theme::secondary_style());
            proof {
                assert(line_views(lines@) =~= seq![(s, theme::plain(Color::DarkGray))]);
            }
            ItemLayout { lines, left_padding: 0, background: None }
        },
        TranscriptItem::UserBox { id: _, mode: _, content: _ } => ItemLayout {
            lines: padded_box_lines(collapse_lines(boxed_lines(item, width, modes), expanded)),
            left_padding: theme::BOX_PADDING_X,
            background: Some(theme::box_background()),
        },
        TranscriptItem::InfoBox { id: _, content: _, alert } => {
            let background = if *alert {
                theme::alert_background()
            } else {
                theme::box_background()
            };
            ItemLayout {
                lines: padded_box_lines(collapse_lines(boxed_lines(item, width, modes), expanded)),
                left_padding: theme::BOX_PADDING_X,
                background: Some(background),
            }
        },
        TranscriptItem::Diff { id: _, file: _, content: _ } => ItemLayout {
            lines: padded_box_lines(collapse_lines(boxed_lines(item, width, modes), expanded)),
            left_padding: theme::BOX_PADDING_X,
            background: Some(theme::diff_background()),
        },
    }
}

// ---------------------------------------------------------------------------
// Heights
// ---------------------------------------------------------------------------

/// Whether an item is expanded.
pub open spec fn is_expanded(item: timeline::ItemView, expanded: Seq<TranscriptItemId>) -> bool {
    expanded.contains(timeline::id_of(item))
}

/// How many rows an item takes.
pub open spec fn height_of(
    item: timeline::ItemView,
    width: u16,
    expanded: Seq<TranscriptItemId>,
) -> nat {
    item_lines(item, width, is_expanded(item, expanded), Seq::empty()).len()
}

/// Where what follows items begins: each takes its rows and a gap.
pub open spec fn offset(
    items: Seq<timeline::ItemView>,
    width: u16,
    expanded: Seq<TranscriptItemId>,
) -> nat
    decreases items.len(),
{
    if items.len() == 0 {
        0
    } else {
        offset(items.drop_last(), width, expanded) + height_of(items.last(), width, expanded)
            + theme::ITEM_GAP as nat
    }
}

/// How many rows items take, with a gap between two of them.
pub open spec fn total_height(
    items: Seq<timeline::ItemView>,
    width: u16,
    expanded: Seq<TranscriptItemId>,
) -> nat {
    if items.len() == 0 {
        0
    } else {
        (offset(items, width, expanded) - theme::ITEM_GAP) as nat
    }
}

/// Whether an item is long enough to be collapsed.
pub open spec fn can_collapse(item: timeline::ItemView, width: u16) -> bool {
    box_lines(item, width, Seq::empty()).len() > theme::COLLAPSE_AFTER
}

fn contains_id(list: &[TranscriptItemId], id: TranscriptItemId) -> (r: bool)
    ensures
        r == list@.contains(id),
{
    let mut i: usize = 0;
    while i < list.len()
        invariant
            i <= list@.len(),
            forall|k: int| 0 <= k < i ==> #[trigger] list@[k] != id,
        decreases list@.len() - i,
    {
        if list[i] == id {
            assert(list@[i as int] == id);
            return true;
        }
        i += 1;
    }
    false
}

fn no_modes() -> (r: Vec<String>)
    ensures
        text::texts(r@) == Seq::<Seq<char>>::empty(),
{
    text::no_texts()
}

fn item_height(item: &TranscriptItem, width: u16, expanded: &[TranscriptItemId]) -> (r: usize)
    ensures
        r == height_of(item@, width, expanded@),
{
    let modes = no_modes();
    let layout = item_layout(
        item,
        width,
        contains_id(expanded, item.id()),
        modes.as_slice(),
    );
    proof {
        assert(line_views(layout.lines@).len() == layout.lines@.len());
    }
    layout.lines.len()
}

fn is_collapsible(item: &TranscriptItem, width: u16) -> (r: bool)
    ensures
        r == can_collapse(item@, width),
{
    let modes = no_modes();
    let lines = boxed_lines(item, width, modes.as_slice());
    proof {
        assert(line_views(lines@).len() == lines@.len());
    }
    lines.len() > theme::COLLAPSE_AFTER
}

/// How many rows items take.
pub fn transcript_height(
    items: &[TranscriptItem],
    width: u16,
    expanded: &[TranscriptItemId],
) -> (r: u128)
    ensures
        r == total_height(timeline::item_views(items@), width, expanded@),
{
    let ghost all = timeline::item_views(items@);
    let count: usize = items.len();
    let mut total: u128 = 0;
    let mut i: usize = 0;
    proof {
        assert(all.take(0) =~= Seq::empty());
    }
    while i < count
        invariant
            i <= count,
            count == items@.len(),
            all == timeline::item_views(items@),
            total == offset(all.take(i as int), width, expanded@),
            total <= i * 0x1_0000_0000_0000_0000,
        decreases count - i,
    {
        let height: usize = item_height(&items[i], width, expanded);
        proof {
            assert(all.take(i + 1).drop_last() =~= all.take(i as int));
            assert(all.take(i + 1).last() == items@[i as int]@);
            assert(usize::MAX <= 0xffff_ffff_ffff_ffff);
            assert((i + 1) * 0x1_0000_0000_0000_0000 <= 0xffff_ffff_ffff_ffff
                * 0x1_0000_0000_0000_0000);
        }
        total = total + height as u128 + theme::ITEM_GAP as u128;
        i += 1;
    }
    proof {
        assert(all.take(i as int) =~= all);
    }
    if count == 0 {
        0
    } else {
        total - theme::ITEM_GAP as u128
    }
}

// ---------------------------------------------------------------------------
// On the screen
// ---------------------------------------------------------------------------

/// A part of the screen.
#[derive(Clone, Copy, Debug, PartialEq, Eq, Structural)]
pub struct Rect {
    pub x: u16,
    pub y: u16,
    pub width: u16,
    pub height: u16,
}

impl Default for Rect {
    fn default() -> (r: Self)
        ensures
            r == (Rect { x: 0, y: 0, width: 0, height: 0 }),
    {
        Rect { x: 0, y: 0, width: 0, height: 0 }
    }
}

/// Whether a cell is in a part of the screen.
pub open spec fn has_cell(area: Rect, x: u16, y: u16) -> bool {
    area.x <= x && x < area.x + area.width && area.y <= y && y < area.y + area.height
}

impl Rect {
    /// Whether a cell is in this part of the screen.
    pub fn contains(&self, x: u16, y: u16) -> (r: bool)
        ensures
            r == has_cell(*self, x, y),
    {
        x >= self.x && x - self.x < self.width && y >= self.y && y - self.y < self.height
    }
}

#[derive(Clone, Copy, Debug, PartialEq, Eq, Structural)]
pub enum HitAction {
    Expand,
}

/// A part of the screen that can be clicked.
#[derive(Clone, Copy, Debug, PartialEq, Eq, Structural)]
pub struct HitRegion {
    pub id: TranscriptItemId,
    pub rect: Rect,
    pub action: HitAction,
}

/// A line on the screen.
#[derive(Clone, Debug, PartialEq, Eq)]
pub struct PlacedLine {
    pub x: u16,
    pub y: u16,
    pub text: String,
    pub style: Style,
    /// What the whole row is painted on.
    pub background: Option<Color>,
}

/// A line on the screen, in mathematical terms.
pub ghost struct PlacedView {
    pub x: int,
    pub y: int,
    pub text: Seq<char>,
    pub style: Style,
    pub background: Option<Color>,
}

impl View for PlacedLine {
    type V = PlacedView;

    open spec fn view(&self) -> PlacedView {
        PlacedView {
            x: self.x as int,
            y: self.y as int,
            text: self.text@,
            style: self.style,
            background: self.background,
        }
    }
}

pub open spec fn placed_views(list: Seq<PlacedLine>) -> Seq<PlacedView> {
    Seq::new(list.len(), |i: int| list[i]@)
}

/// What came of placing the transcript.
pub struct RenderResult {
    pub total_height: u128,
    pub max_scroll: u128,
    pub hit_regions: Vec<HitRegion>,
}

/// The lesser of two numbers.
pub open spec fn lesser(a: int, b: int) -> int {
    if a <= b {
        a
    } else {
        b
    }
}

/// The greater of two numbers.
pub open spec fn greater(a: int, b: int) -> int {
    if a >= b {
        a
    } else {
        b
    }
}

/// How far a transcript of so many rows can be scrolled.
pub open spec fn scroll_limit(total: int, area: Rect) -> int {
    greater(total - area.height, 0)
}

/// Where the first row of a transcript stands: its last row is at the bottom of the
/// area, unless it is scrolled.
pub open spec fn origin(total: int, scroll: int, area: Rect) -> int {
    area.y + area.height - total + lesser(scroll, scroll_limit(total, area))
}

/// The first of `count` lines from `top` on that is in the area.
pub open spec fn first_visible(top: int, count: int, area: Rect) -> int {
    lesser(greater(area.y - top, 0), count)
}

/// The first of `count` lines from `top` on that is below the area.
pub open spec fn end_visible(top: int, count: int, area: Rect) -> int {
    greater(lesser(area.y + area.height - top, count), first_visible(top, count, area))
}

/// What an item is painted on; one that the pointer is on is brighter.
pub open spec fn painted(item: timeline::ItemView, hovered: bool) -> Option<Color> {
    match ground(item) {
        Some(c) => Some(
            if hovered {
                Color::Rgb(47, 51, 60)
            } else {
                c
            },
        ),
        None => None,
    }
}

/// How many columns the lines of an item have.
pub open spec fn room(item: timeline::ItemView, area: Rect) -> nat {
    greater(area.width - 2 * indent(item), 0) as nat
}

/// The lines of an item that are visible where its first line stands at `top`.
pub open spec fn visible_lines(
    item: timeline::ItemView,
    top: int,
    area: Rect,
    expanded: Seq<TranscriptItemId>,
    hovered: Option<TranscriptItemId>,
    modes: Seq<Seq<char>>,
) -> Seq<PlacedView> {
    let lines = item_lines(item, area.width, is_expanded(item, expanded), modes);
    let from = first_visible(top, lines.len() as int, area);
    let to = end_visible(top, lines.len() as int, area);
    Seq::new(
        (to - from) as nat,
        |i: int|
            PlacedView {
                x: area.x + indent(item),
                y: top + from + i,
                text: columns::truncated(lines[from + i].0, room(item, area)),
                style: lines[from + i].1,
                background: painted(item, hovered == Some(timeline::id_of(item))),
            },
    )
}

/// The lines of items that are visible where the first line stands at `top`.
pub open spec fn all_visible(
    items: Seq<timeline::ItemView>,
    top: int,
    area: Rect,
    expanded: Seq<TranscriptItemId>,
    hovered: Option<TranscriptItemId>,
    modes: Seq<Seq<char>>,
) -> Seq<PlacedView>
    decreases items.len(),
{
    if items.len() == 0 {
        Seq::empty()
    } else {
        all_visible(items.drop_last(), top, area, expanded, hovered, modes) + visible_lines(
            items.last(),
            top + offset(items.drop_last(), area.width, expanded),
            area,
            expanded,
            hovered,
            modes,
        )
    }
}

/// The part of the area that an item can be clicked in, where there is one.
pub open spec fn region_of(
    item: timeline::ItemView,
    top: int,
    area: Rect,
    expanded: Seq<TranscriptItemId>,
) -> Seq<HitRegion> {
    let height = height_of(item, area.width, expanded) as int;
    let from = greater(top, area.y as int);
    let to = lesser(top + height, area.y + area.height);
    if timeline::is_boxed(item) && can_collapse(item, area.width) && to > from {
        seq![
            HitRegion {
                id: timeline::id_of(item),
                rect: Rect {
                    x: area.x,
                    y: from as u16,
                    width: area.width,
                    height: (to - from) as u16,
                },
                action: HitAction::Expand,
            },
        ]
    } else {
        Seq::empty()
    }
}

/// The parts of the area in which items can be clicked.
pub open spec fn regions_of(
    items: Seq<timeline::ItemView>,
    top: int,
    area: Rect,
    expanded: Seq<TranscriptItemId>,
) -> Seq<HitRegion>
    decreases items.len(),
{
    if items.len() == 0 {
        Seq::empty()
    } else {
        regions_of(items.drop_last(), top, area, expanded) + region_of(
            items.last(),
            top + offset(items.drop_last(), area.width, expanded),
            area,
            expanded,
        )
    }
}

/// The modes of what the user said.
pub open spec fn user_modes(items: Seq<timeline::ItemView>) -> Seq<Seq<char>>
    decreases items.len(),
{
    if items.len() == 0 {
        Seq::empty()
    } else {
        let before = user_modes(items.drop_last());
        match items.last() {
            timeline::ItemView::UserBox(id, mode, content) => before.push(mode),
            _ => before,
        }
    }
}

/// Whether an area lies on a screen with room for the padding of a box.
pub open spec fn on_screen(area: Rect) -> bool {
    area.x + theme::BOX_PADDING_X <= u16::MAX && area.y + area.height <= u16::MAX
}

fn collect_modes(items: &[TranscriptItem]) -> (r: Vec<String>)
    ensures
        text::texts(r@) == user_modes(timeline::item_views(items@)),
{
    let ghost all = timeline::item_views(items@);
    let mut modes = text::no_texts();
    let mut i: usize = 0;
    proof {
        assert(all.take(0) =~= Seq::empty());
    }
    while i < items.len()
        invariant
            i <= items@.len(),
            all == timeline::item_views(items@),
            text::texts(modes@) == user_modes(all.take(i as int)),
        decreases items@.len() - i,
    {
        proof {
            assert(all.take(i + 1).drop_last() =~= all.take(i as int));
            assert(all.take(i + 1).last() == items@[i as int]@);
        }
        if let TranscriptItem::UserBox { id: _, mode, content: _ } = &items[i] {
            text::push_text(&mut modes, mode.as_str());
        }
        i += 1;
    }
    proof {
        assert(all.take(i as int) =~= all);
    }
    modes
}

proof fn lemma_offset_in_total(
    items: Seq<timeline::ItemView>,
    width: u16,
    expanded: Seq<TranscriptItemId>,
    k: int,
)
    requires
        0 <= k < items.len(),
    ensures
        offset(items.take(k), width, expanded) + height_of(items[k], width, expanded)
            <= total_height(items, width, expanded),
    decreases items.len(),
{
    if k + 1 < items.len() {
        let front = items.drop_last();
        lemma_offset_in_total(front, width, expanded, k);
        assert(front.take(k) =~= items.take(k));
    } else {
        assert(items.take(k) =~= items.drop_last());
    }
}

/// The rows of an item's lines that are on the screen. `above` is how many rows of
/// the area lie above the first row of the transcript, `hidden` how many rows of the
/// transcript lie above the area.
fn visible_range(start: u128, count: usize, above: u128, hidden: u128, height: u16) -> (r: (
    usize,
    usize,
))
    requires
        start + above <= u128::MAX,
        hidden + height <= u128::MAX,
    ensures
        ({
            let top = start + above - hidden;
            let from = lesser(greater(-top, 0), count as int);
            let to = greater(lesser(height - top, count as int), from);
            r.0 == from && r.1 == to
        }),
        r.0 <= r.1 <= count,
{
    let first: u128 = start + above;
    let from: usize = if first >= hidden {
        0
    } else if hidden - first >= count as u128 {
        count
    } else {
        (hidden - first) as usize
    };
    let bottom: u128 = hidden + height as u128;
    let to: usize = if bottom <= first {
        0
    } else if bottom - first >= count as u128 {
        count
    } else {
        (bottom - first) as usize
    };
    if to < from {
        (from, from)
    } else {
        (from, to)
    }
}

fn push_placed(list: &mut Vec<PlacedLine>, line: PlacedLine)
    ensures
        placed_views(final(list)@) == placed_views(old(list)@).push(line@),
{
    let ghost before = placed_views(list@);
    let ghost v = line@;
    list.push(line);
    proof {
        assert(placed_views(list@) =~= before.push(v));
    }
}

/// Places the lines of an item.
fn render_item(
    placed: &mut Vec<PlacedLine>,
    item: &TranscriptItem,
    area: Rect,
    start: u128,
    above: u128,
    hidden: u128,
    expanded: &[TranscriptItemId],
    hovered: Option<TranscriptItemId>,
    modes: &[String],
)
    requires
        on_screen(area),
        start + above <= u128::MAX,
        hidden + area.height <= u128::MAX,
    ensures
        placed_views(final(placed)@) == placed_views(old(placed)@) + visible_lines(
            item@,
            area.y + start + above - hidden,
            area,
            expanded@,
            hovered,
            text::texts(modes@),
        ),
{
    let ghost first = placed_views(placed@);
    let ghost top = area.y + start + above - hidden;
    let ghost wanted = visible_lines(item@, top, area, expanded@, hovered, text::texts(modes@));
    let ghost lines = item_lines(
        item@,
        area.width,
        is_expanded(item@, expanded@),
        text::texts(modes@),
    );
    let layout = item_layout(item, area.width, contains_id(expanded, item.id()), modes);
    proof {
        assert(lines.len() == layout.lines@.len());
    }
    let under = match hovered {
        Some(id) => id == item.id(),
        None => false,
    };
    let background = match layout.background {
        Some(c) => Some(
            if under {
                theme::box_hover_background()
            } else {
                c
            },
        ),
        None => None,
    };
    let sides: u16 = layout.left_padding * 2;
    let space: usize = if area.width > sides {
        (area.width - sides) as usize
    } else {
        0
    };
    let (from, to) = visible_range(start, layout.lines.len(), above, hidden, area.height);
    let mut i: usize = from;
    proof {
        assert(from == first_visible(top, lines.len() as int, area));
        assert(to == end_visible(top, lines.len() as int, area));
        assert(first + wanted.take(0) =~= first);
    }
    while i < to
        invariant
            from <= i <= to,
            to <= layout.lines@.len(),
            on_screen(area),
            start + above <= u128::MAX,
            hidden + area.height <= u128::MAX,
            top == area.y + start + above - hidden,
            from == first_visible(top, lines.len() as int, area),
            to == end_visible(top, lines.len() as int, area),
            lines.len() == layout.lines@.len(),
            lines == line_views(layout.lines@),
            lines == item_lines(
                item@,
                area.width,
                is_expanded(item@, expanded@),
                text::texts(modes@),
            ),
            layout.left_padding == indent(item@),
            background == painted(item@, hovered == Some(timeline::id_of(item@))),
            space == room(item@, area),
            wanted == visible_lines(
                item@,
                top,
                area,
                expanded@,
                hovered,
                text::texts(modes@),
            ),
            placed_views(placed@) == first + wanted.take(i - from),
        decreases to - i,
    {
        let line = &layout.lines[i];
        let row: u128 = start + above + i as u128 - hidden;
        let shown = columns::truncate_to_width(line.text.as_str(), space);
        let one = PlacedLine {
            x: area.x + layout.left_padding,
            y: area.y + row as u16,
            text: shown,
            style: line.style,
            background,
        };
        proof {
            assert(lines[i as int] == (line.text@, line.style));
            assert(one@ == wanted[i - from]);
            assert((first + wanted.take(i - from)).push(one@) =~= first + wanted.take(
                i + 1 - from,
            ));
        }
        push_placed(placed, one);
        i += 1;
    }
    proof {
        assert(wanted.take(i - from) =~= wanted);
    }
}

/// Finds the part of the area in which an item can be clicked.
fn push_region(
    regions: &mut Vec<HitRegion>,
    item: &TranscriptItem,
    area: Rect,
    start: u128,
    above: u128,
    hidden: u128,
    expanded: &[TranscriptItemId],
    height: usize,
)
    requires
        on_screen(area),
        start + above <= u128::MAX,
        hidden + area.height <= u128::MAX,
        height == height_of(item@, area.width, expanded@),
    ensures
        final(regions)@ == old(regions)@ + region_of(
            item@,
            area.y + start + above - hidden,
            area,
            expanded@,
        ),
{
    let ghost before = regions@;
    proof {
        assert(before + Seq::<HitRegion>::empty() =~= before);
    }
    if !item.is_box() || !is_collapsible(item, area.width) {
        return;
    }
    let (from, to) = visible_range(start, height, above, hidden, area.height);
    if from >= to {
        return;
    }
    let row: u128 = start + above + from as u128 - hidden;
    let region = HitRegion {
        id: item.id(),
        rect: Rect {
            x: area.x,
            y: area.y + row as u16,
            width: area.width,
            height: (to - from) as u16,
        },
        action: HitAction::Expand,
    };
    proof {
        assert(seq![region] =~= region_of(
            item@,
            area.y + start + above - hidden,
            area,
            expanded@,
        ));
        assert(before.push(region) =~= before + seq![region]);
    }
    regions.push(region);
}

/// Places the transcript on the screen, scrolled up by so many rows.
#[verifier::rlimit(40)]
pub fn render_transcript(
    area: Rect,
    items: &[TranscriptItem],
    scroll_offset: u128,
    expanded: &[TranscriptItemId],
    hovered: Option<TranscriptItemId>,
) -> (r: (RenderResult, Vec<PlacedLine>))
    requires
        on_screen(area),
    ensures
        ({
            let all = timeline::item_views(items@);
            let total = total_height(all, area.width, expanded@) as int;
            let top = origin(total, scroll_offset as int, area);
            if area.width == 0 || area.height == 0 {
                &&& r.0.total_height == 0
                &&& r.0.max_scroll == 0
                &&& r.0.hit_regions@.len() == 0
                &&& r.1@.len() == 0
            } else {
                &&& r.0.total_height == total
                &&& r.0.max_scroll == scroll_limit(total, area)
                &&& r.0.hit_regions@ == regions_of(all, top, area, expanded@)
                &&& placed_views(r.1@) == all_visible(
                    all,
                    top,
                    area,
                    expanded@,
                    hovered,
                    user_modes(all),
                )
            }
        }),
{
    let mut placed: Vec<PlacedLine> = Vec::new();
    let mut regions: Vec<HitRegion> = Vec::new();
    if area.width == 0 || area.height == 0 {
        return (
            RenderResult { total_height: 0, max_scroll: 0, hit_regions: regions },
            placed,
        );
    }
    let ghost all = timeline::item_views(items@);
    let total: u128 = transcript_height(items, area.width, expanded);
    let height: u128 = area.height as u128;
    let max_scroll: u128 = if total > height {
        total - height
    } else {
        0
    };
    let scroll: u128 = if scroll_offset < max_scroll {
        scroll_offset
    } else {
        max_scroll
    };
    let above: u128 = if total < height {
        height - total
    } else {
        0
    };
    let hidden: u128 = max_scroll - scroll;
    let ghost top = origin(total as int, scroll_offset as int, area);
    let modes = collect_modes(items);
    let count: usize = items.len();
    let mut start: u128 = 0;
    let mut i: usize = 0;
    proof {
        assert(all.take(0) =~= Seq::empty());
        assert(placed_views(placed@) =~= Seq::empty());
        assert(regions@ =~= Seq::empty());
        assert(top == area.y + above - hidden);
    }
    while i < count
        invariant
            i <= count,
            count == items@.len(),
            all == timeline::item_views(items@),
            total == total_height(all, area.width, expanded@),
            on_screen(area),
            area.width > 0 && area.height > 0,
            max_scroll == scroll_limit(total as int, area),
            top == origin(total as int, scroll_offset as int, area),
            above <= area.height,
            total < area.height || above == 0,
            hidden + area.height <= total || hidden == 0,
            above + total <= u128::MAX,
            top == area.y + above - hidden,
            text::texts(modes@) == user_modes(all),
            start == offset(all.take(i as int), area.width, expanded@),
            i < count ==> start <= total,
            regions@ == regions_of(all.take(i as int), top, area, expanded@),
            placed_views(placed@) == all_visible(
                all.take(i as int),
                top,
                area,
                expanded@,
                hovered,
                user_modes(all),
            ),
        decreases count - i,
    {
        let item = &items[i];
        let rows: usize = item_height(item, area.width, expanded);
        proof {
            assert(all[i as int] == item@);
            assert(all.take(i + 1).drop_last() =~= all.take(i as int));
            assert(all.take(i + 1).last() == item@);
            lemma_offset_in_total(all, area.width, expanded@, i as int);
            if i + 1 < count {
                lemma_offset_in_total(all, area.width, expanded@, i + 1);
            }
        }
        render_item(
            &mut placed,
            item,
            area,
            start,
            above,
            hidden,
            expanded,
            hovered,
            modes.as_slice(),
        );
        push_region(&mut regions, item, area, start, above, hidden, expanded, rows);
        i += 1;
        if i < count {
            start = start + rows as u128 + theme::ITEM_GAP as u128;
        } else {
            proof {
                assert(all.take(i as int) =~= all);
            }
            return (RenderResult { total_height: total, max_scroll, hit_regions: regions }, placed);
        }
    }
    proof {
        assert(all.take(i as int) =~= all);
    }
    (RenderResult { total_height: total, max_scroll, hit_regions: regions }, placed)
}

// ---------------------------------------------------------------------------
// Laws
// ---------------------------------------------------------------------------

/// A collapsed box never takes more rows than an expanded one, and tells that it can
/// be expanded.
pub proof fn law_collapsed_boxes_are_shorter(lines: Seq<(Seq<char>, Style)>)
    ensures
        collapsed(lines, false).len() <= collapsed(lines, true).len(),
        lines.len() > theme::COLLAPSE_AFTER ==> {
            &&& collapsed(lines, false).len() == theme::COLLAPSED_LINES + 2
            &&& collapsed(lines, false).last().0 == "Click to expand"@
        },
{
}

/// Every line that is placed lies in the area.
pub proof fn law_lines_stay_in_the_area(
    item: timeline::ItemView,
    top: int,
    area: Rect,
    expanded: Seq<TranscriptItemId>,
    hovered: Option<TranscriptItemId>,
    modes: Seq<Seq<char>>,
    i: int,
)
    requires
        0 <= i < visible_lines(item, top, area, expanded, hovered, modes).len(),
    ensures
        area.y <= visible_lines(item, top, area, expanded, hovered, modes)[i].y < area.y
            + area.height,
{
}

/// Scrolling stops where the first row of the transcript is at the top of the area;
/// what fits into the area cannot be scrolled.
pub proof fn law_scrolling_stops_at_the_top(total: int, scroll: int, area: Rect)
    requires
        total >= 0,
        scroll >= 0,
    ensures
        total >= area.height ==> origin(total, scroll, area) <= area.y,
        total <= area.height ==> origin(total, scroll, area) == area.y + area.height - total,
        scroll >= scroll_limit(total, area) && total >= area.height ==> origin(total, scroll, area)
            == area.y,
{
}

/// Lines that are added, taken out and marked have colours of their own; the names of the
/// files that are compared do not count as changes.
pub proof fn law_changes_are_coloured(rest: Seq<char>, line: Seq<char>)
    ensures
        rest.len() == 0 || rest[0] != '+' ==> diff_style(seq!['+'] + rest).fg == Color::LightGreen,
        rest.len() == 0 || rest[0] != '-' ==> diff_style(seq!['-'] + rest).fg == Color::LightRed,
        diff_style(seq!['@', '@'] + rest).fg == Color::LightCyan,
        diff_style(seq!['+', '+', '+'] + rest).fg == Color::DarkGray,
        diff_style(seq!['-', '-', '-'] + rest).fg == Color::DarkGray,
        line.len() == 0 || (line[0] != '+' && line[0] != '-' && line[0] != '@') ==> diff_style(
            line,
        ).fg == Color::DarkGray,
{
    reveal_strlit("+");
    reveal_strlit("+++");
    reveal_strlit("-");
    reveal_strlit("---");
    reveal_strlit("@@");
    let a = seq!['+'] + rest;
    let b = seq!['-'] + rest;
    let c = seq!['@', '@'] + rest;
    let d = seq!['+', '+', '+'] + rest;
    let e = seq!['-', '-', '-'] + rest;
    assert(a.subrange(0, 1) =~= "+"@);
    assert(b.subrange(0, 1) =~= "-"@);
    assert(c.subrange(0, 2) =~= "@@"@);
    assert(d.subrange(0, 3) =~= "+++"@);
    assert(e.subrange(0, 3) =~= "---"@);
    if text::starts_with(a, "+++"@) {
        assert(a.subrange(0, 3)[1] == '+');
    }
    if text::starts_with(b, "---"@) {
        assert(b.subrange(0, 3)[1] == '-');
    }
    lemma_first_is(b, "+"@);
    lemma_first_is(c, "+"@);
    lemma_first_is(c, "-"@);
    lemma_first_is(d, "-"@);
    lemma_first_is(d, "@@"@);
    lemma_first_is(e, "+"@);
    lemma_first_is(e, "@@"@);
    lemma_first_is(line, "+"@);
    lemma_first_is(line, "-"@);
    lemma_first_is(line, "@@"@);
}

proof fn lemma_first_is(s: Seq<char>, p: Seq<char>)
    requires
        p.len() > 0,
    ensures
        text::starts_with(s, p) ==> s.len() > 0 && s[0] == p[0],
{
    if text::starts_with(s, p) {
        assert(s.subrange(0, p.len() as int)[0] == s[0]);
    }
}

/// A box shows its content line by line, under its mode or its file; a note on one line.
pub proof fn law_boxes_show_their_content(
    mode: Seq<char>,
    content: Seq<char>,
    file: Seq<char>,
    width: u16,
    modes: Seq<Seq<char>>,
    i: int,
    a: Seq<Seq<char>>,
    b: Seq<Seq<char>>,
)
    ensures
        user_lines(mode, content, width, modes)[0].0 == theme::label_of(mode),
        0 <= i < columns::wrapped(content, inner_columns(width)).len() ==> user_lines(
            mode,
            content,
            width,
            modes,
        )[i + 2].0 == columns::wrapped(content, inner_columns(width))[i] && info_lines(
            content,
            true,
            width,
        )[i].0 == columns::wrapped(content, inner_columns(width))[i],
        user_lines(mode, content, width, modes).len() == columns::wrapped(
            content,
            inner_columns(width),
        ).len() + 2,
        diff_lines(file, content, width)[0].0 == file,
        changed_lines(a + b, width) == changed_lines(a, width) + changed_lines(b, width),
        on_one_line(content).len() == content.len(),
        0 <= i < content.len() ==> on_one_line(content)[i] == (if content[i] == '\n' || content[i]
            == '\r' {
            ' '
        } else {
            content[i]
        }),
    decreases b.len(),
{
    if b.len() == 0 {
        assert(a + b =~= a);
        assert(changed_lines(a, width) + changed_lines(b, width) =~= changed_lines(a, width));
    } else {
        law_boxes_show_their_content(mode, content, file, width, modes, i, a, b.drop_last());
        assert((a + b).drop_last() =~= a + b.drop_last());
        assert((a + b).last() == b.last());
        assert(changed_lines(a + b, width) =~= changed_lines(a, width) + changed_lines(b, width));
    }
}

/// Every line that lies in the area is shown there, on its row.
pub proof fn law_lines_in_the_area_are_shown(
    item: timeline::ItemView,
    top: int,
    area: Rect,
    expanded: Seq<TranscriptItemId>,
    hovered: Option<TranscriptItemId>,
    modes: Seq<Seq<char>>,
    k: int,
)
    requires
        0 <= k < item_lines(item, area.width, expanded.contains(timeline::id_of(item)), modes).len(),
        area.y <= top + k < area.y + area.height,
    ensures
        ({
            let lines = item_lines(
                item,
                area.width,
                expanded.contains(timeline::id_of(item)),
                modes,
            );
            let shown = visible_lines(item, top, area, expanded, hovered, modes);
            exists|i: int|
                0 <= i < shown.len() && (#[trigger] shown[i]).y == top + k && shown[i].text
                    == columns::truncated(lines[k].0, room(item, area)) && shown[i].style
                    == lines[k].1
        }),
{
    let lines = item_lines(item, area.width, expanded.contains(timeline::id_of(item)), modes);
    let shown = visible_lines(item, top, area, expanded, hovered, modes);
    let from = first_visible(top, lines.len() as int, area);
    let i = k - from;
    assert(0 <= i < shown.len());
    assert(shown[i].y == top + k);
}

/// Items stand one below the other, with a gap between neighbours.
pub proof fn law_items_stand_below_each_other(
    a: Seq<timeline::ItemView>,
    b: Seq<timeline::ItemView>,
    item: timeline::ItemView,
    width: u16,
    expanded: Seq<TranscriptItemId>,
)
    ensures
        offset(a + b, width, expanded) == offset(a, width, expanded) + offset(b, width, expanded),
        offset(seq![item], width, expanded) == height_of(item, width, expanded) + theme::ITEM_GAP,
        total_height(seq![item], width, expanded) == height_of(item, width, expanded),
        height_of(item, width, expanded) == item_lines(
            item,
            width,
            expanded.contains(timeline::id_of(item)),
            Seq::empty(),
        ).len(),
        user_modes(a + b) == user_modes(a) + user_modes(b),
    decreases b.len(),
{
    reveal_with_fuel(offset, 2);
    assert(seq![item].drop_last() =~= Seq::empty());
    if b.len() == 0 {
        assert(a + b =~= a);
        assert(user_modes(a) + user_modes(b) =~= user_modes(a));
    } else {
        law_items_stand_below_each_other(a, b.drop_last(), item, width, expanded);
        assert((a + b).drop_last() =~= a + b.drop_last());
        assert((a + b).last() == b.last());
        assert(user_modes(a + b) =~= user_modes(a) + user_modes(b));
    }
}

/// A box that can be expanded is hit exactly where it is shown.
pub proof fn law_boxes_are_hit_where_they_are_shown(
    item: timeline::ItemView,
    top: int,
    area: Rect,
    expanded: Seq<TranscriptItemId>,
    x: u16,
    y: u16,
)
    requires
        area.y + area.height <= u16::MAX,
        timeline::is_boxed(item),
        can_collapse(item, area.width),
    ensures
        (exists|i: int|
            0 <= i < region_of(item, top, area, expanded).len() && has_cell(
                (#[trigger] region_of(item, top, area, expanded)[i]).rect,
                x,
                y,
            )) <==> has_cell(area, x, y) && top <= y < top + height_of(item, area.width, expanded),
        forall|i: int|
            0 <= i < region_of(item, top, area, expanded).len() ==> (#[trigger] region_of(
                item,
                top,
                area,
                expanded,
            )[i]).id == timeline::id_of(item),
{
    let all = region_of(item, top, area, expanded);
    if all.len() > 0 {
        assert(all.len() == 1);
        assert(has_cell(all[0].rect, x, y) <==> has_cell(area, x, y) && top <= y < top + height_of(
            item,
            area.width,
            expanded,
        ));
    }
}

} // verus!

//! What a frame shows, as plain values: where the four regions of the screen
//! lie, what the header, the transcript and the input box hold, and where the
//! cursor stands. Painting these values is left to the caller.

use crate::model::{optional_index, Model, ModelView};
use crate::text::{
    byte_len, byte_length, count_fitting, count_lines, fitting_chars, lemma_fitting_chars,
    line_count, lines_of, split_lines, texts,
};
use crate::transcript::{body_contains, body_start, is_translation, rendered_height};
use ratatui::layout::{Constraint, Direction, Layout, Rect};
use vstd::prelude::*;

verus! {

/// The rows of the header region.
pub const HEADER_ROWS: u16 = 3;

/// The fewest rows that the transcript region asks for.
pub const CHAT_MIN_ROWS: u16 = 5;

/// The rows of the help region.
pub const HELP_ROWS: u16 = 2;

/// The most lines of input that are shown at once.
pub const INPUT_LINES_SHOWN: usize = 3;

/// The rows of padding around the lines of input.
pub const INPUT_PADDING_ROWS: u16 = 2;

/// A rectangle of the screen.
#[derive(Clone, Copy, Debug, PartialEq, Eq, Structural)]
pub struct Area {
    pub x: u16,
    pub y: u16,
    pub width: u16,
    pub height: u16,
}

/// The four regions of a frame, from top to bottom.
#[derive(Clone, Copy, Debug, PartialEq, Eq, Structural)]
pub struct FrameAreas {
    pub header: Area,
    pub chat: Area,
    pub input: Area,
    pub help: Area,
}

/// The rows of the input region: one per line of input, at least one and at
/// most as many as are shown at once, and the padding.
pub open spec fn input_rows(input: Seq<char>) -> u16 {
    let lines = line_count(input);
    if lines < 1 {
        (1 + INPUT_PADDING_ROWS) as u16
    } else if lines > INPUT_LINES_SHOWN {
        (INPUT_LINES_SHOWN + INPUT_PADDING_ROWS) as u16
    } else {
        (lines + INPUT_PADDING_ROWS) as u16
    }
}

/// Computes the rows of the input region.
pub fn input_height(input: &str) -> (rows: u16)
    ensures
        rows == input_rows(input@),
{
    let lines = count_lines(input);
    if lines < 1 {
        1 + INPUT_PADDING_ROWS
    } else if lines > INPUT_LINES_SHOWN {
        INPUT_LINES_SHOWN as u16 + INPUT_PADDING_ROWS
    } else {
        lines as u16 + INPUT_PADDING_ROWS
    }
}

/// Whether a rectangle is a row of an area: it has the left edge and the
/// width of the area and lies between its top and its bottom.
pub open spec fn is_row_of(row: Area, area: Area) -> bool {
    &&& row.x == area.x
    &&& row.width == area.width
    &&& area.y <= row.y
    &&& row.y + row.height <= area.y + area.height
}

/// Splits an area into four rows with `ratatui::layout::Layout::split`, under
/// the constraints, from top to bottom: exactly `header` rows, at least
/// `chat_min` rows, exactly `input` rows, exactly `help` rows.
///
/// How the height of the area is shared out comes out of a constraint solver
/// and nothing is claimed of it. What the contract takes from the source of
/// the layout is what holds of every solution: a vertical split gives one
/// rectangle for each constraint, each with the left edge and the width of
/// the area, and the solver is required to keep the top and the bottom of
/// every rectangle between the top and the bottom of the area.
#[verifier::external_body]
fn split_rows(area: Area, header: u16, chat_min: u16, input: u16, help: u16) -> (rows: Vec<Area>)
    ensures
        rows.len() == 4,
        forall|i: int| 0 <= i < 4 ==> is_row_of(#[trigger] rows@[i], area),
{
    let constraints = [
        Constraint::Length(header),
        Constraint::Min(chat_min),
        Constraint::Length(input),
        Constraint::Length(help),
    ];
    let whole = Rect { x: area.x, y: area.y, width: area.width, height: area.height };
    let rows = Layout::default().direction(Direction::Vertical).constraints(constraints).split(whole);
    rows.iter().map(|r| Area { x: r.x, y: r.y, width: r.width, height: r.height }).collect()
}

/// The state once the renderer has recorded where the transcript is shown.
pub open spec fn with_viewport(m: ModelView, chat: Area) -> ModelView {
    ModelView { chat_area_y: chat.y, chat_area_height: chat.height, ..m }
}

/// Whether the four regions are rows of an area.
pub open spec fn are_rows_of(areas: FrameAreas, area: Area) -> bool {
    &&& is_row_of(areas.header, area)
    &&& is_row_of(areas.chat, area)
    &&& is_row_of(areas.input, area)
    &&& is_row_of(areas.help, area)
}

/// Splits the screen into its four regions, the input region asking for
/// `input` rows. Every region has the left edge and the width of the screen
/// and lies between its top and its bottom; how the height of the screen is
/// shared out among the regions is decided by the layout solver.
pub fn split_frame(area: Area, input: u16) -> (areas: FrameAreas)
    ensures
        are_rows_of(areas, area),
{
    let rows = split_rows(area, HEADER_ROWS, CHAT_MIN_ROWS, input, HELP_ROWS);
    FrameAreas { header: rows[0], chat: rows[1], input: rows[2], help: rows[3] }
}

/// Records, for the resolver, where on the screen the transcript is shown.
pub fn record_viewport(app: &mut Model, chat: Area)
    ensures
        final(app)@ == with_viewport(old(app)@, chat),
        old(app)@.well_formed() ==> final(app)@.well_formed(),
        final(app).pairs == old(app).pairs,
        final(app).messages == old(app).messages,
{
    app.chat_area_y = chat.y;
    app.chat_area_height = chat.height;
}

/// The most bytes of a copied translation that the header repeats.
pub const PREVIEW_BYTES: usize = 30;

/// What stands before the copied text in the header.
pub const PREVIEW_MARK: &'static str = "  \u{1F4CB} ";

/// What stands for the part of the copied text that is left out.
pub const PREVIEW_ELLIPSIS: &'static str = "...";

/// The notice of a copy: the copied text behind a mark. Of a text of more
/// than `PREVIEW_BYTES` bytes only the characters that fit into that many
/// bytes are shown, with an ellipsis behind them.
pub open spec fn preview_of(message: Seq<char>) -> Seq<char> {
    if byte_len(message) > PREVIEW_BYTES {
        PREVIEW_MARK@ + message.take(fitting_chars(message, PREVIEW_BYTES as nat) as int)
            + PREVIEW_ELLIPSIS@
    } else {
        PREVIEW_MARK@ + message
    }
}

/// Writes the notice of a copy.
pub fn copied_preview(message: &str) -> (preview: String)
    ensures
        preview@ == preview_of(message@),
{
    let mut preview = String::from_str(PREVIEW_MARK);
    if byte_length(message) > PREVIEW_BYTES {
        proof {
            lemma_fitting_chars(message@, PREVIEW_BYTES as nat);
        }
        let shown = count_fitting(message, PREVIEW_BYTES);
        let head = message.substring_char(0, shown);
        assert(head@ == message@.take(shown as int));
        preview.append(head);
        preview.append(PREVIEW_ELLIPSIS);
    } else {
        preview.append(message);
    }
    preview
}

/// The entry of the header for one language pair.
#[derive(Debug, PartialEq, Eq)]
pub struct Tab {
    pub label: String,
    pub selected: bool,
}

/// A tab as mathematical values.
pub struct TabView {
    pub label: Seq<char>,
    pub selected: bool,
}

/// What the header shows: a tab for every pair, whether a translation is
/// under way, and the notice of the last copy.
#[derive(Debug, PartialEq, Eq)]
pub struct Header {
    pub tabs: Vec<Tab>,
    pub translating: bool,
    pub copied_preview: Option<String>,
}

/// A header as mathematical values.
pub struct HeaderView {
    pub tabs: Seq<TabView>,
    pub translating: bool,
    pub copied_preview: Option<Seq<char>>,
}

impl View for Header {
    type V = HeaderView;

    open spec fn view(&self) -> HeaderView {
        HeaderView {
            tabs: self.tabs@.map_values(|t: Tab| TabView { label: t.label@, selected: t.selected }),
            translating: self.translating,
            copied_preview: crate::model::optional_text(self.copied_preview),
        }
    }
}

/// The header of a session: the labels of its pairs in their order, the
/// selected one marked.
pub open spec fn header_of(m: ModelView) -> HeaderView {
    HeaderView {
        tabs: Seq::new(
            m.pairs.len(),
            |i: int| TabView { label: m.pairs[i].label, selected: i == m.current_pair_idx },
        ),
        translating: m.translating,
        copied_preview: match m.copied_message {
            Some(text) => Some(preview_of(text)),
            None => None,
        },
    }
}

/// Builds the header of a session.
pub fn header(app: &Model) -> (shown: Header)
    ensures
        shown@ == header_of(app@),
{
    let mut tabs: Vec<Tab> = Vec::new();
    let mut i: usize = 0;
    while i < app.pairs.len()
        invariant
            i <= app.pairs.len(),
            tabs.len() == i,
            forall|k: int|
                0 <= k < i ==> (#[trigger] tabs@[k]).label@ == app.pairs@[k].label@ && tabs@[k].selected
                    == (k == app.current_pair_idx),
        decreases app.pairs.len() - i,
    {
        tabs.push(Tab { label: app.pairs[i].label.clone(), selected: i == app.current_pair_idx });
        i = i + 1;
    }
    let copied_preview = match &app.copied_message {
        Some(text) => Some(copied_preview(text.as_str())),
        None => None,
    };
    let shown = Header { tabs, translating: app.translating, copied_preview };
    assert(shown@.tabs == header_of(app@).tabs);
    shown
}

/// The columns that the name of the user and the space around it take from
/// the rule above a user entry.
pub const USER_RULE_MARGIN: u16 = 6;

/// The columns that the word for a translation and the space around it take
/// from the rule above a translation.
pub const TRANSLATION_RULE_MARGIN: u16 = 14;

/// The least length of a rule.
pub const RULE_MIN: u16 = 10;

/// One line of the drawn transcript.
#[derive(Debug, PartialEq, Eq)]
pub enum ChatLine {
    /// The rule above a user entry, with its length.
    UserRule(usize),
    /// The rule above a translation, with its length.
    TranslationRule(usize),
    /// An empty line.
    Blank,
    /// A line of the body of the entry at `entry`; highlighted where that
    /// entry is the translation copied last.
    Body { entry: usize, text: String, highlighted: bool },
}

/// A line of the drawn transcript as mathematical values.
pub enum ChatLineView {
    UserRule(nat),
    TranslationRule(nat),
    Blank,
    Body { entry: nat, text: Seq<char>, highlighted: bool },
}

impl View for ChatLine {
    type V = ChatLineView;

    open spec fn view(&self) -> ChatLineView {
        match self {
            ChatLine::UserRule(length) => ChatLineView::UserRule(*length as nat),
            ChatLine::TranslationRule(length) => ChatLineView::TranslationRule(*length as nat),
            ChatLine::Blank => ChatLineView::Blank,
            ChatLine::Body { entry, text, highlighted } => ChatLineView::Body {
                entry: *entry as nat,
                text: text@,
                highlighted: *highlighted,
            },
        }
    }
}

/// The views of a sequence of lines.
pub open spec fn line_views(lines: Seq<ChatLine>) -> Seq<ChatLineView> {
    lines.map_values(|l: ChatLine| l@)
}

/// The length of a rule in a region of `width` columns: what `margin` leaves
/// of the width, and never less than the least length.
pub open spec fn rule_length(width: u16, margin: u16) -> nat {
    if width - margin < RULE_MIN {
        RULE_MIN as nat
    } else {
        (width - margin) as nat
    }
}

fn rule_of(width: u16, margin: u16) -> (length: usize)
    ensures
        length == rule_length(width, margin),
{
    if width < margin || width - margin < RULE_MIN {
        RULE_MIN as usize
    } else {
        (width - margin) as usize
    }
}

/// The rule above the entry at `index`.
pub open spec fn rule_line(index: nat, width: u16) -> ChatLineView {
    if is_translation(index as int) {
        ChatLineView::TranslationRule(rule_length(width, TRANSLATION_RULE_MARGIN))
    } else {
        ChatLineView::UserRule(rule_length(width, USER_RULE_MARGIN))
    }
}

/// Whether the body of the entry at `index` is highlighted: it is the
/// translation copied last.
pub open spec fn is_highlighted(index: nat, copied: Option<nat>) -> bool {
    is_translation(index as int) && copied == Some(index)
}

/// The lines of the body of an entry.
pub open spec fn body_lines(index: nat, message: Seq<char>, copied: Option<nat>) -> Seq<
    ChatLineView,
> {
    lines_of(message).map_values(
        |text: Seq<char>|
            ChatLineView::Body { entry: index, text, highlighted: is_highlighted(index, copied) },
    )
}

/// The lines that one entry is drawn on: its rule, an empty line, its body
/// and an empty line.
pub open spec fn entry_lines(index: nat, message: Seq<char>, width: u16, copied: Option<nat>)
    -> Seq<ChatLineView> {
    seq![rule_line(index, width), ChatLineView::Blank] + body_lines(index, message, copied)
        + seq![ChatLineView::Blank]
}

/// The lines that a transcript is drawn on in a region of `width` columns,
/// with the translation at `copied` highlighted.
pub open spec fn chat_lines_of(messages: Seq<Seq<char>>, width: u16, copied: Option<nat>) -> Seq<
    ChatLineView,
>
    decreases messages.len(),
{
    if messages.len() == 0 {
        Seq::empty()
    } else {
        chat_lines_of(messages.drop_last(), width, copied) + entry_lines(
            (messages.len() - 1) as nat,
            messages.last(),
            width,
            copied,
        )
    }
}

/// A transcript is drawn on as many lines as the resolver counts for it.
pub proof fn lemma_chat_lines_len(messages: Seq<Seq<char>>, width: u16, copied: Option<nat>)
    ensures
        chat_lines_of(messages, width, copied).len() == rendered_height(messages),
    decreases messages.len(),
{
    if messages.len() > 0 {
        lemma_chat_lines_len(messages.drop_last(), width, copied);
    }
}

/// The resolver and the drawing agree. A line that the resolver takes for a
/// body line of an entry is drawn as that line of that entry's body, and a
/// line that is drawn as a body line of an entry is one that the resolver
/// takes for a body line of that entry.
pub proof fn lemma_drawn_bodies(
    messages: Seq<Seq<char>>,
    width: u16,
    copied: Option<nat>,
    line: int,
)
    ensures
        forall|index: int| #[trigger]
            body_contains(messages, index, line) ==> {
                &&& 0 <= line < chat_lines_of(messages, width, copied).len()
                &&& chat_lines_of(messages, width, copied)[line] == ChatLineView::Body {
                    entry: index as nat,
                    text: lines_of(messages[index])[line - body_start(messages, index)],
                    highlighted: is_highlighted(index as nat, copied),
                }
            },
        0 <= line < chat_lines_of(messages, width, copied).len() ==> (chat_lines_of(
            messages,
            width,
            copied,
        )[line] matches ChatLineView::Body { entry, .. } ==> body_contains(
            messages,
            entry as int,
            line,
        )),
    decreases messages.len(),
{
    if messages.len() > 0 {
        let earlier = messages.drop_last();
        let last = (messages.len() - 1) as nat;
        let above = chat_lines_of(earlier, width, copied);
        let entry = entry_lines(last, messages.last(), width, copied);
        lemma_drawn_bodies(earlier, width, copied, line);
        lemma_chat_lines_len(earlier, width, copied);
        lemma_chat_lines_len(messages, width, copied);
        assert(messages.take(last as int) == earlier);
        assert forall|index: int| 0 <= index < last implies messages.take(index)
            == earlier.take(index) by {}
        assert forall|index: int| #[trigger] body_contains(messages, index, line) implies {
            &&& 0 <= line < chat_lines_of(messages, width, copied).len()
            &&& chat_lines_of(messages, width, copied)[line] == ChatLineView::Body {
                entry: index as nat,
                text: lines_of(messages[index])[line - body_start(messages, index)],
                highlighted: is_highlighted(index as nat, copied),
            }
        } by {
            if index < last {
                assert(messages.take(index) == earlier.take(index));
                assert(body_contains(earlier, index, line));
            }
        }
        if 0 <= line < above.len() {
            if let ChatLineView::Body { entry, .. } = above[line] {
                assert(body_contains(earlier, entry as int, line));
                assert(messages.take(entry as int) == earlier.take(entry as int));
            }
        }
    }
}

/// Builds the lines that the transcript of a session is drawn on.
pub fn chat_lines(app: &Model, width: u16) -> (lines: Vec<ChatLine>)
    ensures
        line_views(lines@) == chat_lines_of(app@.messages, width, app@.copied_index),
{
    let ghost all = texts(app.messages@);
    let ghost copied = optional_index(app.copied_index);
    let mut lines: Vec<ChatLine> = Vec::new();
    let mut i: usize = 0;
    assert(all.take(0) == Seq::<Seq<char>>::empty());
    assert(line_views(lines@) == Seq::<ChatLineView>::empty());
    while i < app.messages.len()
        invariant
            i <= app.messages.len(),
            all == texts(app.messages@),
            copied == optional_index(app.copied_index),
            line_views(lines@) == chat_lines_of(all.take(i as int), width, copied),
        decreases app.messages.len() - i,
    {
        let ghost before = line_views(lines@);
        proof {
            assert(all.take(i + 1).drop_last() == all.take(i as int));
            assert(all.take(i + 1).last() == app.messages@[i as int]@);
        }
        let translation = i % 2 == 1;
        let highlighted = translation && match app.copied_index {
            Some(index) => index == i,
            None => false,
        };
        assert(highlighted == is_highlighted(i as nat, copied));
        if translation {
            lines.push(ChatLine::TranslationRule(rule_of(width, TRANSLATION_RULE_MARGIN)));
        } else {
            lines.push(ChatLine::UserRule(rule_of(width, USER_RULE_MARGIN)));
        }
        lines.push(ChatLine::Blank);
        let ghost opened = before + seq![rule_line(i as nat, width), ChatLineView::Blank];
        assert(line_views(lines@) == opened);
        let body = split_lines(app.messages[i].as_str());
        let ghost drawn = body_lines(i as nat, app.messages@[i as int]@, copied);
        let mut j: usize = 0;
        while j < body.len()
            invariant
                j <= body.len(),
                texts(body@) == lines_of(app.messages@[i as int]@),
                drawn == body_lines(i as nat, app.messages@[i as int]@, copied),
                highlighted == is_highlighted(i as nat, copied),
                line_views(lines@) == opened + drawn.take(j as int),
            decreases body.len() - j,
        {
            let ghost so_far = line_views(lines@);
            lines.push(ChatLine::Body { entry: i, text: body[j].clone(), highlighted });
            proof {
                assert(texts(body@)[j as int] == body@[j as int]@);
                assert(drawn.take(j + 1) == drawn.take(j as int).push(drawn[j as int]));
                assert(line_views(lines@) == so_far.push(drawn[j as int]));
            }
            j = j + 1;
        }
        assert(drawn.take(j as int) == drawn);
        let ghost bodied = line_views(lines@);
        lines.push(ChatLine::Blank);
        proof {
            assert(line_views(lines@) == bodied.push(ChatLineView::Blank));
            assert(line_views(lines@) == before + entry_lines(
                i as nat,
                app.messages@[i as int]@,
                width,
                copied,
            ));
        }
        i = i + 1;
    }
    assert(all.take(i as int) == all);
    lines
}

/// What is shown in the input box while nothing has been written.
pub const INPUT_PLACEHOLDER: &'static str = "Type your text here...";

/// The columns between the left edge of the input region and the text.
pub const CURSOR_INDENT: u16 = 3;

/// What the input box shows and where the cursor stands.
#[derive(Debug, PartialEq, Eq)]
pub struct InputBox {
    /// The lines of input that are shown: the last ones, where there are more
    /// than fit.
    pub lines: Vec<String>,
    /// Whether the placeholder is shown in place of the lines.
    pub placeholder: bool,
    /// The column of the cursor.
    pub cursor_x: u16,
    /// The row of the cursor.
    pub cursor_y: u16,
}

/// An input box as mathematical values.
pub struct InputBoxView {
    pub lines: Seq<Seq<char>>,
    pub placeholder: bool,
    pub cursor_x: u16,
    pub cursor_y: u16,
}

impl View for InputBox {
    type V = InputBoxView;

    open spec fn view(&self) -> InputBoxView {
        InputBoxView {
            lines: texts(self.lines@),
            placeholder: self.placeholder,
            cursor_x: self.cursor_x,
            cursor_y: self.cursor_y,
        }
    }
}

/// The lines of input that are shown: all of them, or the last ones where
/// there are more than are shown at once.
pub open spec fn shown_lines(input: Seq<char>) -> Seq<Seq<char>> {
    let all = lines_of(input);
    if all.len() > INPUT_LINES_SHOWN {
        all.skip(all.len() - INPUT_LINES_SHOWN)
    } else {
        all
    }
}

/// A coordinate held to the largest one that the screen can have.
pub open spec fn on_screen(coordinate: int) -> u16 {
    if coordinate > u16::MAX {
        u16::MAX
    } else {
        coordinate as u16
    }
}

/// The input box for a text in a region: the cursor stands behind the last
/// shown line, one row below the top of the region for every shown line, and
/// as many columns to the right of the indent as that line has bytes.
pub open spec fn input_box_of(input: Seq<char>, region: Area) -> InputBoxView {
    let shown = shown_lines(input);
    InputBoxView {
        lines: shown,
        placeholder: input.len() == 0,
        cursor_x: on_screen(
            region.x + CURSOR_INDENT + if shown.len() == 0 {
                0
            } else {
                byte_len(shown.last())
            },
        ),
        cursor_y: on_screen(
            region.y + if shown.len() == 0 {
                1
            } else {
                shown.len() as int
            },
        ),
    }
}

fn clamp_to_screen(base: u16, offset: usize) -> (coordinate: u16)
    ensures
        coordinate == on_screen(base + offset),
{
    if offset > 65535 || base as u32 + offset as u32 > 65535 {
        65535
    } else {
        (base as u32 + offset as u32) as u16
    }
}

/// Builds the input box for a text in a region.
pub fn input_box(input: &str, region: Area) -> (shown: InputBox)
    ensures
        shown@ == input_box_of(input@, region),
{
    let all = split_lines(input);
    let first = if all.len() > INPUT_LINES_SHOWN {
        all.len() - INPUT_LINES_SHOWN
    } else {
        0
    };
    let mut lines: Vec<String> = Vec::new();
    let mut i: usize = first;
    while i < all.len()
        invariant
            first <= i <= all.len(),
            lines.len() == i - first,
            forall|k: int| 0 <= k < lines.len() ==> (#[trigger] lines@[k])@ == all@[first + k]@,
        decreases all.len() - i,
    {
        lines.push(all[i].clone());
        i = i + 1;
    }
    assert(texts(lines@) == shown_lines(input@));
    let last_bytes = if lines.len() == 0 {
        0
    } else {
        byte_length(lines[lines.len() - 1].as_str())
    };
    let rows = if lines.len() == 0 {
        1
    } else {
        lines.len()
    };
    let cursor_x = if last_bytes > 65535 {
        65535
    } else {
        clamp_to_screen(region.x, CURSOR_INDENT as usize + last_bytes)
    };
    let cursor_y = clamp_to_screen(region.y, rows);
    InputBox { lines, placeholder: input.is_empty(), cursor_x, cursor_y }
}

/// Everything that one frame shows.
#[derive(Debug, PartialEq, Eq)]
pub struct Screen {
    /// The four regions.
    pub areas: FrameAreas,
    /// What the header region shows.
    pub header: Header,
    /// The lines of the transcript; the transcript region shows them from
    /// line `scroll` on.
    pub chat: Vec<ChatLine>,
    /// The number of transcript lines above the transcript region.
    pub scroll: u16,
    /// What the input region shows.
    pub input: InputBox,
}

/// What a frame shows for a session once the regions are laid out.
pub open spec fn screen_of(m: ModelView, areas: FrameAreas) -> ScreenView {
    ScreenView {
        areas,
        header: header_of(m),
        chat: chat_lines_of(m.messages, areas.chat.width, m.copied_index),
        scroll: m.scroll,
        input: input_box_of(m.input, areas.input),
    }
}

/// A frame as mathematical values.
pub struct ScreenView {
    pub areas: FrameAreas,
    pub header: HeaderView,
    pub chat: Seq<ChatLineView>,
    pub scroll: u16,
    pub input: InputBoxView,
}

impl View for Screen {
    type V = ScreenView;

    open spec fn view(&self) -> ScreenView {
        ScreenView {
            areas: self.areas,
            header: self.header@,
            chat: line_views(self.chat@),
            scroll: self.scroll,
            input: self.input@,
        }
    }
}

/// Builds what a frame shows in regions that are laid out already, and
/// records the region of the transcript in the session for the resolver.
pub fn compose(areas: FrameAreas, app: &mut Model) -> (screen: Screen)
    ensures
        screen@ == screen_of(old(app)@, areas),
        final(app)@ == with_viewport(old(app)@, areas.chat),
        old(app)@.well_formed() ==> final(app)@.well_formed(),
        final(app).pairs == old(app).pairs,
        final(app).messages == old(app).messages,
{
    record_viewport(app, areas.chat);
    let header = header(app);
    let chat = chat_lines(app, areas.chat.width);
    let input = input_box(app.input.as_str(), areas.input);
    Screen { areas, header, chat, scroll: app.scroll, input }
}

/// Prepares a frame for a screen of the given area: lays out the regions for
/// the current input, records the region of the transcript in the session
/// for the resolver, and builds what the header, the transcript and the
/// input box show.
pub fn render(area: Area, app: &mut Model) -> (screen: Screen)
    ensures
        screen@ == screen_of(old(app)@, screen.areas),
        are_rows_of(screen.areas, area),
        final(app)@ == with_viewport(old(app)@, screen.areas.chat),
        old(app)@.well_formed() ==> final(app)@.well_formed(),
        final(app).pairs == old(app).pairs,
        final(app).messages == old(app).messages,
{
    let areas = split_frame(area, input_height(app.input.as_str()));
    compose(areas, app)
}

} // verus!

//! The chat screen: line editing, history, scrolling, and what a frame shows.
//!
//! A [`ChatTui`] takes in keys and pasted text and says what to draw. Reading
//! the terminal and drawing on it are left to its caller.
//!
//! IME-friendly rules: quitting is only possible with Ctrl-C or Ctrl-Q. A bare
//! `q` never quits, because an input method commits it as an ordinary
//! character.

use crate::agent::handle::{user_message_with_text, Agent};
use crate::cli::chat::{ChatItem, ChatState};
use crate::text;
use crate::text::{
    blank, chars_of, concat2, concat3, decimal_text, is_whitespace, replaced_all, string_of, take_chars,
};
use ratatui::layout::{Constraint, Layout, Rect};
use unicode_segmentation::UnicodeSegmentation;
use unicode_width::UnicodeWidthStr;
use vstd::prelude::*;

#[allow(unused_imports)]
use crate::agent::handle::AgentView;
#[allow(unused_imports)]
use crate::cli::chat::{ChatItemView, ChatStateView};
#[allow(unused_imports)]
use crate::session::log;
#[allow(unused_imports)]
use crate::types::llm::{ContentBlockView, Role};

verus! {

/// Hard cap on pasted text, so that a huge paste cannot freeze the screen.
pub const PASTE_LIMIT: usize = 4096;

// ---------------------------------------------------------------------------
// grapheme clusters and columns
// ---------------------------------------------------------------------------

/// The grapheme clusters of a text, in order, as unicode-segmentation finds
/// them.
pub uninterp spec fn graphemes_of(s: Seq<char>) -> Seq<Seq<char>>;

/// The grapheme cluster that unicode-segmentation finds at the end of a text.
pub uninterp spec fn last_grapheme_of(s: Seq<char>) -> Option<Seq<char>>;

/// How many columns unicode-width gives a text.
pub uninterp spec fn columns_of(s: Seq<char>) -> usize;

/// `UnicodeSegmentation::graphemes` with extended clusters: the text cut into
/// clusters, none of them empty, nothing left out.
#[verifier::external_body]
fn graphemes(s: &str) -> (r: Vec<String>)
    ensures
        text::views(r@) == graphemes_of(s@),
        text::join(text::views(r@), seq![]) == s@,
        forall|i: int| 0 <= i < r@.len() ==> (#[trigger] r@[i])@.len() > 0,
{
    s.graphemes(true).map(String::from).collect()
}

/// `next_back` of the iterator that `UnicodeSegmentation::graphemes` gives: a
/// cluster that is not empty and ends the text; none where the text is empty.
#[verifier::external_body]
fn last_grapheme(s: &str) -> (r: Option<String>)
    ensures
        text::opt_view(r) == last_grapheme_of(s@),
        match r {
            Some(c) => 0 < c@.len() <= s@.len() && s@.skip(s@.len() - c@.len()) == c@,
            None => s@.len() == 0,
        },
{
    s.graphemes(true).next_back().map(String::from)
}

/// `UnicodeWidthStr::width`.
#[verifier::external_body]
fn columns(s: &str) -> (r: usize)
    ensures
        r == columns_of(s@),
{
    UnicodeWidthStr::width(s)
}

// ---------------------------------------------------------------------------
// keys
// ---------------------------------------------------------------------------

/// A key.
#[derive(Debug, Clone, Copy, PartialEq, Eq, Structural)]
pub enum KeyCode {
    Char(char),
    Enter,
    Esc,
    Backspace,
    Delete,
    Left,
    Right,
    Home,
    End,
    Up,
    Down,
    PageUp,
    PageDown,
    /// Any other key.
    Other,
}

/// A key that was pressed, with or without the control key.
#[derive(Debug, Clone, Copy, PartialEq, Eq, Structural)]
pub struct KeyEvent {
    pub code: KeyCode,
    pub control: bool,
}

impl KeyEvent {
    /// A key alone.
    pub fn plain(code: KeyCode) -> (r: Self)
        ensures
            r == (KeyEvent { code, control: false }),
    {
        KeyEvent { code, control: false }
    }

    /// A character with the control key.
    pub fn ctrl(c: char) -> (r: Self)
        ensures
            r == (KeyEvent { code: KeyCode::Char(c), control: true }),
    {
        KeyEvent { code: KeyCode::Char(c), control: true }
    }

    /// Whether the key quits.
    pub open spec fn quits(self) -> bool {
        self.control && (self.code == KeyCode::Char('c') || self.code == KeyCode::Char('q'))
    }
}

/// What a terminal reports.
#[derive(Debug, PartialEq)]
pub enum ScreenEvent {
    /// A key went down or repeats.
    Key { key: KeyEvent },
    /// Text was pasted, or committed whole by an input method.
    Paste { text: String },
    /// The screen changed its size.
    Resize,
    /// Anything else.
    Other,
}

// ---------------------------------------------------------------------------
// the state
// ---------------------------------------------------------------------------

/// The interactive chat screen.
#[derive(Debug)]
pub struct ChatTui {
    input: String,
    /// How many characters of `input` stand before the caret.
    caret: usize,
    /// The first column of `input` that the field shows.
    input_scroll: usize,
    history: Vec<String>,
    /// How far back the history was walked.
    history_pos: Option<usize>,
    scroll: usize,
    auto_follow: bool,
    seq: u64,
    dirty: bool,
    last_items: usize,
    last_pending: usize,
}

/// What a [`ChatTui`] holds.
#[verifier::ext_equal]
pub struct TuiView {
    pub input: Seq<char>,
    pub caret: nat,
    pub input_scroll: nat,
    pub history: Seq<Seq<char>>,
    pub history_pos: Option<nat>,
    pub scroll: usize,
    pub auto_follow: bool,
    pub seq: u64,
    pub dirty: bool,
    pub last_items: usize,
    pub last_pending: usize,
}

impl View for ChatTui {
    type V = TuiView;

    closed spec fn view(&self) -> TuiView {
        TuiView {
            input: self.input@,
            caret: self.caret as nat,
            input_scroll: self.input_scroll as nat,
            history: text::views(self.history@),
            history_pos: match self.history_pos {
                Some(p) => Some(p as nat),
                None => None,
            },
            scroll: self.scroll,
            auto_follow: self.auto_follow,
            seq: self.seq,
            dirty: self.dirty,
            last_items: self.last_items,
            last_pending: self.last_pending,
        }
    }
}

/// Where the word that ends at the end of `s` begins: after its last white
/// space.
pub open spec fn word_start(s: Seq<char>) -> nat
    decreases s.len(),
{
    if s.len() == 0 || text::is_white(s.last()) {
        s.len()
    } else {
        word_start(s.drop_last())
    }
}

/// Pasted text on a single line: a line break becomes one space.
pub open spec fn single_line(s: Seq<char>) -> Seq<char> {
    text::replace_all(s, "\r\n"@, "\n"@).map_values(
        |c: char|
            if c == '\r' || c == '\n' {
                ' '
            } else {
                c
            },
    )
}

impl TuiView {
    /// An empty screen.
    pub open spec fn fresh() -> TuiView {
        TuiView {
            input: seq![],
            caret: 0,
            input_scroll: 0,
            history: seq![],
            history_pos: None,
            scroll: 0,
            auto_follow: true,
            seq: 0,
            dirty: true,
            last_items: 0,
            last_pending: 0,
        }
    }

    /// The caret is inside the input, and the history was walked no further
    /// than it reaches.
    pub open spec fn well_formed(self) -> bool {
        &&& self.caret <= self.input.len()
        &&& self.history_pos matches Some(p) ==> p < self.history.len()
    }

    /// What stands before the caret.
    pub open spec fn before(self) -> Seq<char> {
        self.input.take(self.caret as int)
    }

    /// What stands after the caret.
    pub open spec fn after(self) -> Seq<char> {
        self.input.skip(self.caret as int)
    }

    /// How many bytes stand before the caret.
    pub open spec fn cursor(self) -> nat {
        vstd::utf8::encode_utf8(self.before()).len()
    }

    /// Whether the caret stands inside the bytes of the input, between two
    /// characters.
    pub open spec fn on_boundary(self) -> bool {
        let bytes = vstd::utf8::encode_utf8(self.input);
        &&& self.cursor() <= bytes.len()
        &&& vstd::utf8::is_char_boundary(bytes, self.cursor() as int)
    }

    /// To be drawn again.
    pub open spec fn touched(self) -> TuiView {
        TuiView { dirty: true, ..self }
    }

    /// With the caret between two texts.
    pub open spec fn with_text(self, before: Seq<char>, after: Seq<char>) -> TuiView {
        TuiView { input: before + after, caret: before.len(), ..self }
    }

    /// With an empty line.
    pub open spec fn cleared(self) -> TuiView {
        TuiView { input: seq![], caret: 0, input_scroll: 0, history_pos: None, ..self }
    }

    /// With a text put in at the caret.
    pub open spec fn inserted(self, s: Seq<char>) -> TuiView {
        TuiView { history_pos: None, ..self.with_text(self.before() + s, self.after()) }
    }

    /// With the caret one cluster to the left.
    pub open spec fn moved_left(self) -> TuiView {
        match last_grapheme_of(self.before()) {
            Some(c) => TuiView { caret: (self.caret - c.len()) as nat, ..self },
            None => self,
        }
    }

    /// With the caret one cluster to the right.
    pub open spec fn moved_right(self) -> TuiView {
        let clusters = graphemes_of(self.after());
        if clusters.len() == 0 {
            self
        } else {
            TuiView { caret: self.caret + clusters[0].len(), ..self }
        }
    }

    /// Without the cluster before the caret.
    pub open spec fn deleted_before(self) -> TuiView {
        match last_grapheme_of(self.before()) {
            Some(c) => self.with_text(
                self.before().take(self.caret - c.len()),
                self.after(),
            ),
            None => self,
        }
    }

    /// Without the cluster after the caret.
    pub open spec fn deleted_after(self) -> TuiView {
        let clusters = graphemes_of(self.after());
        if clusters.len() == 0 {
            self
        } else {
            self.with_text(self.before(), self.after().skip(clusters[0].len() as int))
        }
    }

    /// Without the word before the caret.
    pub open spec fn word_deleted(self) -> TuiView {
        let cut = word_start(text::trim_end(self.before()));
        TuiView {
            history_pos: None,
            ..self.with_text(self.before().take(cut as int), self.after())
        }
    }

    /// With the line of the history that lies `p` submissions back.
    pub open spec fn recalled(self, p: nat) -> TuiView {
        let line = self.history[self.history.len() - 1 - p];
        TuiView { history_pos: Some(p), input: line, caret: line.len(), ..self }
    }

    /// One line further back in the history.
    pub open spec fn walked_back(self) -> TuiView {
        if self.history.len() == 0 {
            self
        } else {
            let next = match self.history_pos {
                Some(p) => p + 1,
                None => 0,
            };
            let p = if next < self.history.len() {
                next
            } else {
                (self.history.len() - 1) as nat
            };
            self.recalled(p).touched()
        }
    }

    /// One line closer in the history; an empty line past the newest one.
    pub open spec fn walked_forward(self) -> TuiView {
        match self.history_pos {
            Some(p) => if p == 0 {
                TuiView { history_pos: None, input: seq![], caret: 0, ..self }.touched()
            } else {
                self.recalled((p - 1) as nat).touched()
            },
            None => self,
        }
    }

    /// The line that Enter submits, if it is not blank.
    pub open spec fn submission(self) -> Option<Seq<char>> {
        if text::is_blank(self.input) {
            None
        } else {
            Some(self.input)
        }
    }

    /// After Enter.
    pub open spec fn entered(self) -> TuiView {
        let done = self.cleared().touched();
        match self.submission() {
            Some(line) => TuiView {
                history: self.history.push(line),
                seq: (self.seq + 1) as u64,
                ..done
            },
            None => done,
        }
    }

    /// Ten lines further up.
    pub open spec fn paged_up(self) -> TuiView {
        TuiView {
            auto_follow: false,
            scroll: if self.scroll <= usize::MAX - 10 {
                (self.scroll + 10) as usize
            } else {
                usize::MAX
            },
            ..self
        }
    }

    /// Ten lines further down; the newest line is followed again once the top
    /// is reached.
    pub open spec fn paged_down(self) -> TuiView {
        let scroll: usize = if self.scroll >= 10 {
            (self.scroll - 10) as usize
        } else {
            0
        };
        TuiView { scroll, auto_follow: scroll == 0 || self.auto_follow, ..self }
    }

    /// After a key that does not quit.
    pub open spec fn pressed(self, key: KeyEvent) -> TuiView {
        match key.code {
            KeyCode::Char(c) => if key.control && c == 'u' {
                self.cleared().touched()
            } else if key.control && c == 'w' {
                self.word_deleted().touched()
            } else if key.control && c == 'a' {
                TuiView { caret: 0, ..self }.touched()
            } else if key.control && c == 'e' {
                TuiView { caret: self.input.len(), ..self }.touched()
            } else {
                self.inserted(seq![c]).touched()
            },
            KeyCode::Esc => self.cleared().touched(),
            KeyCode::Enter => self.entered(),
            KeyCode::Backspace => self.deleted_before().touched(),
            KeyCode::Delete => self.deleted_after().touched(),
            KeyCode::Left => self.moved_left().touched(),
            KeyCode::Right => self.moved_right().touched(),
            KeyCode::Home => TuiView { caret: 0, ..self }.touched(),
            KeyCode::End => TuiView { caret: self.input.len(), ..self }.touched(),
            KeyCode::Up => self.walked_back(),
            KeyCode::Down => self.walked_forward(),
            KeyCode::PageUp => self.paged_up().touched(),
            KeyCode::PageDown => self.paged_down().touched(),
            KeyCode::Other => self,
        }
    }

    /// The screen after a key.
    pub open spec fn after_key(self, key: KeyEvent) -> TuiView {
        if key.quits() {
            self
        } else {
            self.pressed(key)
        }
    }

    /// What a key submits.
    pub open spec fn submitted(self, key: KeyEvent) -> Option<Seq<char>> {
        if key.code == KeyCode::Enter {
            self.submission()
        } else {
            None
        }
    }

    /// The history after a key: longer by the line that it submits.
    pub open spec fn kept_history(self, key: KeyEvent) -> Seq<Seq<char>> {
        match self.submitted(key) {
            Some(line) => self.history.push(line),
            None => self.history,
        }
    }

    /// After text was pasted.
    pub open spec fn pasted(self, s: Seq<char>) -> TuiView {
        self.inserted(text::first_chars(single_line(s), PASTE_LIMIT as nat)).touched()
    }
}

impl TuiView {
    /// Whether a frame is due.
    pub open spec fn redraw_due(self, state: ChatStateView, busy: bool) -> bool {
        self.dirty || state.items.len() as usize != self.last_items || text::byte_length(
            state.pending,
        ) != self.last_pending || busy
    }

    /// With the projection noticed as it stands.
    pub open spec fn noticed(self, state: ChatStateView) -> TuiView {
        TuiView {
            dirty: false,
            last_items: state.items.len() as usize,
            last_pending: text::byte_length(state.pending),
            ..self
        }
    }
}

/// The agent after a screen submitted a line.
pub open spec fn with_submission(
    agent: AgentView,
    seq: u64,
    line: Option<Seq<char>>,
) -> AgentView {
    match line {
        Some(line) => agent.with_followup(
            log::user_message_of("u-"@ + text::decimal((seq + 1) as nat), line),
        ),
        None => agent,
    }
}

// ---------------------------------------------------------------------------
// what a frame shows
// ---------------------------------------------------------------------------

/// A rectangle of the screen.
#[derive(Debug, Clone, Copy, PartialEq, Eq, Structural)]
pub struct Area {
    pub x: u16,
    pub y: u16,
    pub width: u16,
    pub height: u16,
}

/// A colour.
#[derive(Debug, Clone, Copy, PartialEq, Eq, Structural)]
pub enum Color {
    Cyan,
    White,
    Green,
    LightBlue,
    Yellow,
    Red,
    DarkGray,
    Magenta,
}

/// How a text looks.
#[derive(Debug, Clone, Copy, PartialEq, Eq, Structural)]
pub struct Style {
    pub color: Option<Color>,
    pub bold: bool,
    pub italic: bool,
}

/// A text that looks one way.
#[derive(Debug, PartialEq)]
pub struct Span {
    pub text: String,
    pub style: Style,
}

/// What a [`Span`] says.
#[verifier::ext_equal]
pub struct SpanView {
    pub text: Seq<char>,
    pub style: Style,
}

impl View for Span {
    type V = SpanView;

    open spec fn view(&self) -> SpanView {
        SpanView {
            text: self.text@,
            style: self.style,
        }
    }
}

impl Clone for Span {
    fn clone(&self) -> (r: Self)
        ensures
            r@ == self@,
    {
        Span {
            text: self.text.clone(),
            style: self.style,
        }
    }
}

/// What the spans of some lines say.
pub open spec fn line_views(lines: Seq<Vec<Span>>) -> Seq<Seq<SpanView>> {
    Seq::new(lines.len(), |i: int| text::views(lines[i]@))
}

/// One frame of the chat screen.
#[derive(Debug, PartialEq)]
pub struct ChatFrame {
    /// Where the conversation stands, bordered.
    pub list_area: Area,
    /// The title of the conversation's border.
    pub title: Span,
    /// The lines of the conversation.
    pub lines: Vec<Vec<Span>>,
    /// The first line that is shown.
    pub offset: usize,
    /// Where the input field stands, bordered.
    pub input_area: Area,
    /// The prompt and the visible part of the input.
    pub input: Vec<Span>,
    /// Where the caret stands.
    pub caret_x: u16,
    pub caret_y: u16,
    /// Where the status line stands.
    pub status_area: Area,
    /// The status and the key hint.
    pub status: Vec<Span>,
}

/// What a [`ChatFrame`] says.
#[verifier::ext_equal]
pub struct ChatFrameView {
    pub list_area: Area,
    pub title: SpanView,
    pub lines: Seq<Seq<SpanView>>,
    pub offset: usize,
    pub input_area: Area,
    pub input: Seq<SpanView>,
    pub caret_x: u16,
    pub caret_y: u16,
    pub status_area: Area,
    pub status: Seq<SpanView>,
}

impl View for ChatFrame {
    type V = ChatFrameView;

    open spec fn view(&self) -> ChatFrameView {
        ChatFrameView {
            list_area: self.list_area,
            title: self.title@,
            lines: line_views(self.lines@),
            offset: self.offset,
            input_area: self.input_area,
            input: text::views(self.input@),
            caret_x: self.caret_x,
            caret_y: self.caret_y,
            status_area: self.status_area,
            status: text::views(self.status@),
        }
    }
}

/// A span in a colour.
pub open spec fn colored(s: Seq<char>, color: Color, bold: bool, italic: bool) -> SpanView {
    SpanView { text: s, style: Style { color: Some(color), bold, italic } }
}

fn colored_span(s: &str, color: Color, bold: bool, italic: bool) -> (r: Span)
    ensures
        r@ == colored(s@, color, bold, italic),
{
    Span { text: s.to_owned(), style: Style { color: Some(color), bold, italic } }
}

/// The colour of a tool's result.
pub open spec fn result_color(is_error: bool) -> Color {
    if is_error {
        Color::Red
    } else {
        Color::DarkGray
    }
}

/// How a line of the conversation is shown.
pub open spec fn item_spans(item: ChatItemView) -> Seq<SpanView> {
    match item {
        ChatItemView::User { text } => seq![
            colored("\u{276f} "@, Color::Cyan, true, false),
            colored(text, Color::White, true, false),
        ],
        ChatItemView::Assistant { text } => seq![
            colored("\u{25c8} "@, Color::Green, true, false),
            colored(text, Color::LightBlue, false, false),
        ],
        ChatItemView::ToolCall { name, arguments } => seq![
            colored("\u{2699} "@, Color::Yellow, true, false),
            colored(name + " "@ + arguments, Color::Yellow, false, false),
        ],
        ChatItemView::ToolResult { text, is_error } => seq![
            colored("\u{21a9} "@, result_color(is_error), true, false),
            colored(text, result_color(is_error), false, false),
        ],
        ChatItemView::System { text } => seq![colored(text, Color::Magenta, false, true)],
    }
}

/// How streaming text is shown.
pub open spec fn pending_spans(pending: Seq<char>) -> Seq<SpanView> {
    seq![colored("\u{258d}"@ + pending, Color::DarkGray, false, true)]
}

/// The lines of a conversation.
pub open spec fn conversation_lines(state: ChatStateView) -> Seq<Seq<SpanView>> {
    let lines = state.items.map_values(|item: ChatItemView| item_spans(item));
    if state.pending.len() == 0 {
        lines
    } else {
        lines.push(pending_spans(state.pending))
    }
}

/// The first line that is shown: the last screenful while the newest line is
/// followed, else no further down than that.
pub open spec fn list_offset(t: TuiView, lines: nat, height: u16) -> usize {
    let visible: int = if height >= 2 {
        height - 2
    } else {
        0
    };
    let max: int = if lines >= visible {
        lines - visible
    } else {
        0
    };
    if t.auto_follow || t.scroll > max {
        max as usize
    } else {
        t.scroll
    }
}

/// The title of a conversation.
pub open spec fn frame_title(session_id: Option<Seq<char>>) -> SpanView {
    colored(
        match session_id {
            Some(id) => " dsh chat \u{2014} "@ + id + " "@,
            None => " dsh chat "@,
        },
        Color::Cyan,
        true,
        false,
    )
}

/// The status line.
pub open spec fn status_spans(busy: bool) -> Seq<SpanView> {
    seq![
        if busy {
            colored("\u{25cf} running"@, Color::Yellow, true, false)
        } else {
            colored("\u{25cb} idle"@, Color::Green, false, false)
        },
        colored(key_hint(), Color::DarkGray, false, false),
    ]
}

/// The key hint of the status line.
pub open spec fn key_hint() -> Seq<char> {
    "  enter send  \u{2190}/\u{2192} move  \u{2191}/\u{2193} hist  ctrl-a/e line  ctrl-u clear  ctrl-c/q quit"@
}

/// The columns that the first `n` clusters take.
pub open spec fn end_column(clusters: Seq<Seq<char>>, n: int) -> nat
    decreases n,
{
    if n <= 0 {
        0
    } else {
        end_column(clusters, n - 1) + columns_of(clusters[n - 1]) as nat
    }
}

/// The clusters among the first `n` that end inside a window of columns, one
/// after the other.
pub open spec fn window_text(
    clusters: Seq<Seq<char>>,
    n: int,
    from: nat,
    to: nat,
) -> Seq<char>
    decreases n,
{
    if n <= 0 {
        seq![]
    } else if from < end_column(clusters, n) <= to {
        window_text(clusters, n - 1, from, to) + clusters[n - 1]
    } else {
        window_text(clusters, n - 1, from, to)
    }
}

impl TuiView {
    /// The column of the caret.
    pub open spec fn caret_column(self) -> nat {
        columns_of(self.before()) as nat
    }

    /// The first column that a field of that width shows: moved no further than
    /// it takes to keep the caret in view.
    pub open spec fn scrolled(self, width: nat) -> TuiView {
        let column = self.caret_column();
        TuiView {
            input_scroll: if column < self.input_scroll {
                column
            } else if column >= self.input_scroll + width {
                (column - width + 1) as nat
            } else {
                self.input_scroll
            },
            ..self
        }
    }

    /// The part of the input that a field of that width shows.
    pub open spec fn window(self, width: nat) -> Seq<char> {
        let clusters = graphemes_of(self.input);
        window_text(
            clusters,
            clusters.len() as int,
            self.input_scroll,
            self.input_scroll + width,
        )
    }

    /// How many columns of the input a field shows.
    pub open spec fn field_width(field: Area) -> nat {
        if field.width >= 5 {
            (field.width - 4) as nat
        } else {
            1
        }
    }

    /// The frame over those areas.
    pub open spec fn frame(
        self,
        state: ChatStateView,
        busy: bool,
        list: Area,
        field: Area,
        bottom: Area,
    ) -> ChatFrameView {
        let lines = conversation_lines(state);
        let now = self.scrolled(Self::field_width(field));
        let right: int = if field.x + field.width <= u16::MAX {
            field.x + field.width
        } else {
            u16::MAX as int
        };
        let last: int = if right >= 1 {
            right - 1
        } else {
            0
        };
        let x = field.x + 3 + now.caret_column() - now.input_scroll;
        ChatFrameView {
            list_area: list,
            title: frame_title(state.session_id),
            lines,
            offset: list_offset(self, lines.len(), list.height),
            input_area: field,
            input: seq![
                colored("\u{276f} "@, Color::Green, true, false),
                SpanView {
                    text: now.window(Self::field_width(field)),
                    style: Style { color: None, bold: false, italic: false },
                },
            ],
            caret_x: if x <= last {
                x as u16
            } else {
                last as u16
            },
            caret_y: (field.y + 1) as u16,
            status_area: bottom,
            status: status_spans(busy),
        }
    }
}

/// Whether a row runs across the whole area, as far as the coordinates reach.
pub open spec fn spans(row: Area, area: Area) -> bool {
    row.x == area.x && row.width == if area.width <= u16::MAX - area.x {
        area.width as int
    } else {
        u16::MAX - area.x
    }
}

/// Whether a row stays between the first and the last line of the area, as far
/// as the coordinates reach.
pub open spec fn within(row: Area, area: Area) -> bool {
    area.y <= row.y && row.y + row.height <= if area.height <= u16::MAX - area.y {
        area.y + area.height
    } else {
        u16::MAX as int
    }
}

/// Whether an area has room for rows of so many lines.
pub open spec fn has_room(area: Area, least: u16, middle: u16, last: u16) -> bool {
    least + middle + last <= area.height <= u16::MAX - area.y
}

/// Whether three rows fill the area, one right below the other, the last two of
/// `middle` and `last` lines.
pub open spec fn stacked(rows: (Area, Area, Area), area: Area, middle: u16, last: u16) -> bool {
    &&& rows.0.y == area.y && rows.0.height == area.height - middle - last
    &&& rows.1.y == rows.0.y + rows.0.height && rows.1.height == middle
    &&& rows.2.y == rows.1.y + rows.1.height && rows.2.height == last
}

/// `Layout::split` of ratatui: an area cut into three rows, the first of at
/// least `least` lines, the others of `middle` and `last` lines. Each row runs
/// across the whole area and stays inside it: its solver is required to keep
/// both ends of a row between the ends of the area, in order. Where there is
/// room for all of them the rows fill the area, one right below the other, and
/// the first gets what the others leave. How the lines are shared out where
/// there are too few is left to that solver, which works in floating point over
/// hash maps, and is not stated.
#[verifier::external_body]
fn split_rows(area: Area, least: u16, middle: u16, last: u16) -> (r: (Area, Area, Area))
    ensures
        spans(r.0, area) && within(r.0, area),
        spans(r.1, area) && within(r.1, area),
        spans(r.2, area) && within(r.2, area),
        has_room(area, least, middle, last) ==> stacked(r, area, middle, last),
{
    let whole = Rect::new(area.x, area.y, area.width, area.height);
    let shares = [Constraint::Min(least), Constraint::Length(middle), Constraint::Length(last)];
    let rows = Layout::vertical(shares).split(whole);
    (
        Area { x: rows[0].x, y: rows[0].y, width: rows[0].width, height: rows[0].height },
        Area { x: rows[1].x, y: rows[1].y, width: rows[1].width, height: rows[1].height },
        Area { x: rows[2].x, y: rows[2].y, width: rows[2].width, height: rows[2].height },
    )
}

proof fn lemma_word_start(s: Seq<char>)
    ensures
        word_start(s) <= s.len(),
    decreases s.len(),
{
    if s.len() > 0 {
        lemma_word_start(s.drop_last());
    }
}

proof fn lemma_trim_end(s: Seq<char>)
    ensures
        text::trim_end(s).len() <= s.len(),
    decreases s.len(),
{
    if s.len() > 0 {
        lemma_trim_end(s.drop_last());
    }
}

proof fn lemma_first_cluster(parts: Seq<Seq<char>>)
    requires
        parts.len() > 0,
    ensures
        parts[0].len() <= text::join(parts, seq![]).len(),
        text::join(parts, seq![]).take(parts[0].len() as int) == parts[0],
    decreases parts.len(),
{
    let whole = text::join(parts, seq![]);
    if parts.len() == 1 {
        assert(whole.take(parts[0].len() as int) =~= parts[0]);
    } else {
        lemma_first_cluster(parts.drop_last());
        let before = text::join(parts.drop_last(), seq![]);
        assert(whole =~= before + parts.last());
        assert(whole.take(parts[0].len() as int) =~= before.take(parts[0].len() as int));
    }
}

proof fn lemma_columns_grow(clusters: Seq<Seq<char>>, a: int, b: int)
    requires
        0 <= a <= b,
    ensures
        end_column(clusters, a) <= end_column(clusters, b),
    decreases b,
{
    if a < b {
        lemma_columns_grow(clusters, a, b - 1);
    }
}

proof fn lemma_window_ends(clusters: Seq<Seq<char>>, a: int, b: int, from: nat, to: nat)
    requires
        0 <= a < b,
        end_column(clusters, a + 1) > to,
    ensures
        window_text(clusters, b, from, to) == window_text(clusters, a, from, to),
    decreases b,
{
    lemma_columns_grow(clusters, a + 1, b);
    if a + 1 < b {
        lemma_window_ends(clusters, a, b - 1, from, to);
    }
}

/// How a line of the conversation is shown.
pub fn render_item(item: &ChatItem) -> (r: Vec<Span>)
    ensures
        text::views(r@) == item_spans(item@),
{
    let mut spans: Vec<Span> = Vec::new();
    match item {
        ChatItem::User { text } => {
            spans.push(colored_span("\u{276f} ", Color::Cyan, true, false));
            spans.push(colored_span(text.as_str(), Color::White, true, false));
        },
        ChatItem::Assistant { text } => {
            spans.push(colored_span("\u{25c8} ", Color::Green, true, false));
            spans.push(colored_span(text.as_str(), Color::LightBlue, false, false));
        },
        ChatItem::ToolCall { name, arguments } => {
            let call = concat3(name.as_str(), " ", arguments.as_str());
            spans.push(colored_span("\u{2699} ", Color::Yellow, true, false));
            spans.push(colored_span(call.as_str(), Color::Yellow, false, false));
        },
        ChatItem::ToolResult { text, is_error } => {
            let color = if *is_error {
                Color::Red
            } else {
                Color::DarkGray
            };
            spans.push(colored_span("\u{21a9} ", color, true, false));
            spans.push(colored_span(text.as_str(), color, false, false));
        },
        ChatItem::System { text } => {
            spans.push(colored_span(text.as_str(), Color::Magenta, false, true));
        },
    }
    assert(text::views(spans@) =~= item_spans(item@));
    spans
}

fn render_lines(state: &ChatState) -> (r: Vec<Vec<Span>>)
    ensures
        line_views(r@) == conversation_lines(state@),
{
    let mut lines: Vec<Vec<Span>> = Vec::new();
    for i in 0..state.items.len()
        invariant
            lines.len() == i,
            forall|k: int|
                0 <= k < i ==> text::views((#[trigger] lines@[k])@) == item_spans(
                    state.items@[k]@,
                ),
    {
        lines.push(render_item(&state.items[i]));
    }
    let ghost all = state@.items.map_values(|item: ChatItemView| item_spans(item));
    assert(line_views(lines@) =~= all);
    if !state.pending.as_str().is_empty() {
        let mut spans: Vec<Span> = Vec::new();
        let shown = concat2("\u{258d}", state.pending.as_str());
        spans.push(colored_span(shown.as_str(), Color::DarkGray, false, true));
        assert(text::views(spans@) =~= pending_spans(state.pending@));
        lines.push(spans);
        assert(line_views(lines@) =~= all.push(pending_spans(state.pending@)));
    }
    lines
}

fn render_title(session_id: &Option<String>) -> (r: Span)
    ensures
        r@ == frame_title(text::opt_view(*session_id)),
{
    match session_id {
        Some(id) => {
            let title = concat3(" dsh chat \u{2014} ", id.as_str(), " ");
            colored_span(title.as_str(), Color::Cyan, true, false)
        },
        None => colored_span(" dsh chat ", Color::Cyan, true, false),
    }
}

fn render_status(busy: bool) -> (r: Vec<Span>)
    ensures
        text::views(r@) == status_spans(busy),
{
    let mut spans: Vec<Span> = Vec::new();
    if busy {
        spans.push(colored_span("\u{25cf} running", Color::Yellow, true, false));
    } else {
        spans.push(colored_span("\u{25cb} idle", Color::Green, false, false));
    }
    spans.push(
        colored_span(
            "  enter send  \u{2190}/\u{2192} move  \u{2191}/\u{2193} hist  ctrl-a/e line  ctrl-u clear  ctrl-c/q quit",
            Color::DarkGray,
            false,
            false,
        ),
    );
    assert(text::views(spans@) =~= status_spans(busy));
    spans
}

/// Puts pasted text on a single line.
pub fn one_line(s: &str) -> (r: String)
    ensures
        r@ == single_line(s@),
{
    let joined = replaced_all(s, "\r\n", "\n");
    let v = chars_of(joined.as_str());
    let mut out = String::new();
    for i in 0..v.len()
        invariant
            v@ == joined@,
            out@.len() == i,
            forall|k: int|
                0 <= k < i ==> #[trigger] out@[k] == (if v@[k] == '\r' || v@[k] == '\n' {
                    ' '
                } else {
                    v@[k]
                }),
    {
        if v[i] == '\r' || v[i] == '\n' {
            out.push(' ');
        } else {
            out.push(v[i]);
        }
    }
    assert(out@ =~= single_line(s@));
    out
}

impl Default for ChatTui {
    fn default() -> (r: Self)
        ensures
            r@ == TuiView::fresh(),
            r@.well_formed(),
    {
        let r = ChatTui {
            input: String::new(),
            caret: 0,
            input_scroll: 0,
            history: Vec::new(),
            history_pos: None,
            scroll: 0,
            auto_follow: true,
            seq: 0,
            dirty: true,
            last_items: 0,
            last_pending: 0,
        };
        assert(r@ =~= TuiView::fresh());
        r
    }
}

impl ChatTui {
    /// The current input text.
    pub fn input(&self) -> (r: &str)
        ensures
            r@ == self@.input,
    {
        self.input.as_str()
    }

    /// Byte offset of the caret inside the input.
    pub fn cursor(&self) -> (r: usize)
        requires
            self@.well_formed(),
        ensures
            r == self@.cursor(),
            self@.on_boundary(),
    {
        proof {
            law_cursor_stands_between_characters(self@);
        }
        let before = self.before();
        before.as_str().as_bytes().len()
    }

    /// How many prompts were submitted.
    pub fn submissions(&self) -> (r: u64)
        ensures
            r == self@.seq,
    {
        self.seq
    }

    /// Submitted prompts, oldest first.
    pub fn history(&self) -> (r: &Vec<String>)
        ensures
            text::views(r@) == self@.history,
    {
        &self.history
    }

    fn before(&self) -> (r: String)
        requires
            self@.well_formed(),
        ensures
            r@ == self@.before(),
    {
        let v = chars_of(self.input.as_str());
        let r = string_of(&v, 0, self.caret);
        assert(r@ =~= self@.before());
        r
    }

    fn after(&self) -> (r: String)
        requires
            self@.well_formed(),
        ensures
            r@ == self@.after(),
    {
        let v = chars_of(self.input.as_str());
        let r = string_of(&v, self.caret, v.len());
        assert(r@ =~= self@.after());
        r
    }

    fn set_text(&mut self, before: &str, after: &str)
        ensures
            final(self)@ == old(self)@.with_text(before@, after@),
    {
        let ghost start = self@;
        self.input = concat2(before, after);
        self.caret = chars_of(before).len();
        assert(self@ =~= start.with_text(before@, after@));
    }

    fn clear(&mut self)
        ensures
            final(self)@ == old(self)@.cleared(),
    {
        let ghost start = self@;
        self.input = String::new();
        self.caret = 0;
        self.input_scroll = 0;
        self.history_pos = None;
        assert(self@ =~= start.cleared());
    }

    fn caret_to_end(&mut self)
        ensures
            final(self)@ == (TuiView { caret: old(self)@.input.len(), ..old(self)@ }),
    {
        self.caret = chars_of(self.input.as_str()).len();
    }

    fn caret_left(&mut self)
        requires
            old(self)@.well_formed(),
        ensures
            final(self)@ == old(self)@.moved_left(),
            final(self)@.well_formed(),
    {
        let before = self.before();
        if let Some(c) = last_grapheme(before.as_str()) {
            let n: usize = chars_of(c.as_str()).len();
            self.caret = self.caret - n;
        }
    }

    fn caret_right(&mut self)
        requires
            old(self)@.well_formed(),
        ensures
            final(self)@ == old(self)@.moved_right(),
            final(self)@.well_formed(),
    {
        let after = self.after();
        let clusters = graphemes(after.as_str());
        if clusters.len() > 0 {
            proof {
                lemma_first_cluster(text::views(clusters@));
            }
            let n: usize = chars_of(clusters[0].as_str()).len();
            let whole: usize = chars_of(self.input.as_str()).len();
            assert(self.caret + n <= whole);
            self.caret = self.caret + n;
        }
    }

    /// Puts a text in at the caret.
    fn insert_at_caret(&mut self, s: &str)
        requires
            old(self)@.well_formed(),
        ensures
            final(self)@ == old(self)@.inserted(s@),
            final(self)@.well_formed(),
    {
        let before = self.before();
        let after = self.after();
        let head = concat2(before.as_str(), s);
        self.set_text(head.as_str(), after.as_str());
        self.history_pos = None;
    }

    /// Deletes the grapheme cluster before the caret.
    fn delete_before_caret(&mut self)
        requires
            old(self)@.well_formed(),
        ensures
            final(self)@ == old(self)@.deleted_before(),
            final(self)@.well_formed(),
    {
        let before = self.before();
        if let Some(c) = last_grapheme(before.as_str()) {
            let after = self.after();
            let n: usize = chars_of(c.as_str()).len();
            let head = take_chars(before.as_str(), self.caret - n);
            self.set_text(head.as_str(), after.as_str());
        }
    }

    /// Deletes the grapheme cluster after the caret.
    fn delete_after_caret(&mut self)
        requires
            old(self)@.well_formed(),
        ensures
            final(self)@ == old(self)@.deleted_after(),
            final(self)@.well_formed(),
    {
        let after = self.after();
        let clusters = graphemes(after.as_str());
        if clusters.len() > 0 {
            proof {
                lemma_first_cluster(text::views(clusters@));
            }
            let before = self.before();
            let n: usize = chars_of(clusters[0].as_str()).len();
            let v = chars_of(after.as_str());
            let tail = string_of(&v, n, v.len());
            assert(tail@ =~= after@.skip(n as int));
            self.set_text(before.as_str(), tail.as_str());
        }
    }

    /// Deletes the word before the caret.
    fn delete_word(&mut self)
        requires
            old(self)@.well_formed(),
        ensures
            final(self)@ == old(self)@.word_deleted(),
            final(self)@.well_formed(),
    {
        let before = self.before();
        let after = self.after();
        let v = chars_of(before.as_str());
        let mut e: usize = v.len();
        assert(v@.take(e as int) =~= v@);
        while e > 0 && is_whitespace(v[e - 1])
            invariant
                e <= v@.len(),
                text::trim_end(v@.take(e as int)) == text::trim_end(v@),
            decreases e,
        {
            assert(v@.take(e as int).drop_last() =~= v@.take(e - 1));
            assert(v@.take(e as int).last() == v@[e - 1]);
            e = e - 1;
        }
        assert(text::trim_end(v@) == v@.take(e as int)) by {
            if e > 0 {
                assert(v@.take(e as int).last() == v@[e - 1]);
            }
        }
        while e > 0 && !is_whitespace(v[e - 1])
            invariant
                e <= v@.len(),
                word_start(v@.take(e as int)) == word_start(text::trim_end(v@)),
            decreases e,
        {
            assert(v@.take(e as int).drop_last() =~= v@.take(e - 1));
            assert(v@.take(e as int).last() == v@[e - 1]);
            e = e - 1;
        }
        assert(word_start(v@.take(e as int)) == e) by {
            if e > 0 {
                assert(v@.take(e as int).last() == v@[e - 1]);
            }
        }
        let head = string_of(&v, 0, e);
        assert(head@ =~= before@.take(e as int));
        self.set_text(head.as_str(), after.as_str());
        self.history_pos = None;
    }

    fn recall(&mut self, p: usize)
        requires
            old(self)@.well_formed(),
            p < old(self)@.history.len(),
        ensures
            final(self)@ == old(self)@.recalled(p as nat),
            final(self)@.well_formed(),
    {
        let at: usize = self.history.len() - 1 - p;
        self.history_pos = Some(p);
        self.input = self.history[at].clone();
        self.caret_to_end();
    }

    /// Walks one step further back through the history.
    fn history_back(&mut self)
        requires
            old(self)@.well_formed(),
        ensures
            final(self)@ == old(self)@.walked_back(),
            final(self)@.well_formed(),
    {
        let n: usize = self.history.len();
        if n > 0 {
            let next: usize = match self.history_pos {
                Some(p) => p + 1,
                None => 0,
            };
            let p: usize = if next < n {
                next
            } else {
                n - 1
            };
            self.recall(p);
            self.dirty = true;
        }
    }

    /// Walks one step forward through the history.
    fn history_forward(&mut self)
        requires
            old(self)@.well_formed(),
        ensures
            final(self)@ == old(self)@.walked_forward(),
            final(self)@.well_formed(),
    {
        let ghost start = self@;
        if let Some(p) = self.history_pos {
            if p == 0 {
                self.history_pos = None;
                self.input = String::new();
                self.caret = 0;
                self.dirty = true;
                assert(self@ =~= start.walked_forward());
            } else {
                self.recall(p - 1);
                self.dirty = true;
            }
        }
    }

    /// Submits the line, unless it is blank.
    fn enter(&mut self, agent: &mut Agent)
        requires
            old(self)@.well_formed(),
            old(self)@.seq < u64::MAX,
        ensures
            final(self)@ == old(self)@.entered(),
            final(self)@.well_formed(),
            final(agent)@ == with_submission(
                old(agent)@,
                old(self)@.seq,
                old(self)@.submission(),
            ),
    {
        let ghost start = self@;
        let line = self.input.clone();
        self.clear();
        self.dirty = true;
        if !blank(line.as_str()) {
            self.history.push(line.clone());
            self.seq = self.seq + 1;
            let number = decimal_text(self.seq);
            let id = concat2("u-", number.as_str());
            agent.followup(user_message_with_text(id.as_str(), line.as_str()));
            assert(self@ =~= start.entered());
        }
    }

    /// Handles one key press. Returns whether the screen should quit.
    pub fn handle_key(&mut self, key: KeyEvent, agent: &mut Agent) -> (r: bool)
        requires
            old(self)@.well_formed(),
            old(self)@.seq < u64::MAX,
        ensures
            r == key.quits(),
            final(self)@ == old(self)@.after_key(key),
            final(self)@.well_formed(),
            final(self)@.on_boundary(),
            final(self)@.history == old(self)@.kept_history(key),
            final(agent)@ == with_submission(
                old(agent)@,
                old(self)@.seq,
                old(self)@.submitted(key),
            ),
    {
        let ghost start = self@;
        match key.code {
            KeyCode::Char(c) => {
                if key.control && (c == 'c' || c == 'q') {
                    proof {
                        law_cursor_stands_between_characters(self@);
                    }
                    return true;
                }
                if key.control && c == 'u' {
                    self.clear();
                } else if key.control && c == 'w' {
                    self.delete_word();
                } else if key.control && c == 'a' {
                    self.caret = 0;
                } else if key.control && c == 'e' {
                    self.caret_to_end();
                } else {
                    let mut one = String::new();
                    one.push(c);
                    assert(one@ =~= seq![c]);
                    self.insert_at_caret(one.as_str());
                }
                self.dirty = true;
            },
            KeyCode::Esc => {
                self.clear();
                self.dirty = true;
            },
            KeyCode::Enter => {
                self.enter(agent);
            },
            KeyCode::Backspace => {
                self.delete_before_caret();
                self.dirty = true;
            },
            KeyCode::Delete => {
                self.delete_after_caret();
                self.dirty = true;
            },
            KeyCode::Left => {
                self.caret_left();
                self.dirty = true;
            },
            KeyCode::Right => {
                self.caret_right();
                self.dirty = true;
            },
            KeyCode::Home => {
                self.caret = 0;
                self.dirty = true;
            },
            KeyCode::End => {
                self.caret_to_end();
                self.dirty = true;
            },
            KeyCode::Up => {
                self.history_back();
            },
            KeyCode::Down => {
                self.history_forward();
            },
            KeyCode::PageUp => {
                self.auto_follow = false;
                self.scroll = self.scroll.saturating_add(10);
                self.dirty = true;
            },
            KeyCode::PageDown => {
                self.scroll = self.scroll.saturating_sub(10);
                if self.scroll == 0 {
                    self.auto_follow = true;
                }
                self.dirty = true;
            },
            KeyCode::Other => {},
        }
        assert(self@ =~= start.after_key(key));
        proof {
            law_cursor_stands_between_characters(self@);
            law_only_submissions_join_the_history(start, key);
        }
        false
    }

    /// Folds pasted text (and phrases that an input method commits whole) into
    /// the input at the caret: on a single line, capped, inserted whole.
    pub fn handle_paste(&mut self, text: &str)
        requires
            old(self)@.well_formed(),
        ensures
            final(self)@ == old(self)@.pasted(text@),
            final(self)@.well_formed(),
    {
        let line = one_line(text);
        let cleaned = take_chars(line.as_str(), PASTE_LIMIT);
        self.insert_at_caret(cleaned.as_str());
        self.dirty = true;
    }

    /// Handles what the terminal reports. Returns whether the screen should
    /// quit.
    pub fn handle_event(&mut self, event: &ScreenEvent, agent: &mut Agent) -> (r: bool)
        requires
            old(self)@.well_formed(),
            old(self)@.seq < u64::MAX,
        ensures
            final(self)@.well_formed(),
            match *event {
                ScreenEvent::Key { key } => {
                    &&& r == key.quits()
                    &&& final(self)@ == old(self)@.after_key(key)
                    &&& final(agent)@ == with_submission(
                        old(agent)@,
                        old(self)@.seq,
                        old(self)@.submitted(key),
                    )
                },
                ScreenEvent::Paste { text } => {
                    &&& !r
                    &&& final(self)@ == old(self)@.pasted(text@)
                    &&& final(agent)@ == old(agent)@
                },
                ScreenEvent::Resize => {
                    &&& !r
                    &&& final(self)@ == old(self)@.touched()
                    &&& final(agent)@ == old(agent)@
                },
                ScreenEvent::Other => {
                    &&& !r
                    &&& final(self)@ == old(self)@
                    &&& final(agent)@ == old(agent)@
                },
            },
    {
        match event {
            ScreenEvent::Key { key } => self.handle_key(*key, agent),
            ScreenEvent::Paste { text } => {
                self.handle_paste(text.as_str());
                false
            },
            ScreenEvent::Resize => {
                self.dirty = true;
                false
            },
            ScreenEvent::Other => false,
        }
    }

    /// Whether a frame is due: something changed here or in the projection, or
    /// the agent is at work. While nothing changes the screen stays dark, so
    /// that an input method's own preview is not flickered over.
    pub fn take_redraw(&mut self, state: &ChatState, busy: bool) -> (r: bool)
        ensures
            r == old(self)@.redraw_due(state@, busy),
            final(self)@ == old(self)@.noticed(state@),
    {
        let items: usize = state.items.len();
        let pending: usize = state.pending.as_str().len();
        let changed = items != self.last_items || pending != self.last_pending;
        let due = self.dirty || changed || busy;
        self.last_items = items;
        self.last_pending = pending;
        self.dirty = false;
        due
    }

    /// The part of the input visible inside a field of that many columns,
    /// scrolled so that the caret stays in view.
    pub fn visible_window(&mut self, visible_cols: u16) -> (r: String)
        requires
            old(self)@.well_formed(),
        ensures
            ({
                let width: nat = if visible_cols == 0 {
                    1
                } else {
                    visible_cols as nat
                };
                &&& final(self)@ == old(self)@.scrolled(width)
                &&& r@ == final(self)@.window(width)
            }),
            final(self)@.well_formed(),
    {
        let ghost start = self@;
        let before = self.before();
        let column: usize = columns(before.as_str());
        let width: usize = if visible_cols == 0 {
            1
        } else {
            visible_cols as usize
        };
        if column < self.input_scroll {
            self.input_scroll = column;
        } else if column - self.input_scroll >= width {
            self.input_scroll = column - (width - 1);
        }
        assert(self@ =~= start.scrolled(width as nat));
        let clusters = graphemes(self.input.as_str());
        let ghost all = text::views(clusters@);
        let from: u128 = self.input_scroll as u128;
        let to: u128 = from + width as u128;
        let mut out = String::new();
        let mut end: u128 = 0;
        let mut i: usize = 0;
        while i < clusters.len()
            invariant
                i <= clusters@.len(),
                all == text::views(clusters@),
                from <= usize::MAX,
                to <= from + usize::MAX,
                end == end_column(all, i as int),
                end <= to,
                out@ == window_text(all, i as int, from as nat, to as nat),
            ensures
                out@ == window_text(all, all.len() as int, from as nat, to as nat),
            decreases clusters@.len() - i,
        {
            let cols: usize = columns(clusters[i].as_str());
            assert(end_column(all, i + 1) == end + cols);
            if end + cols as u128 > to {
                proof {
                    lemma_window_ends(all, i as int, all.len() as int, from as nat, to as nat);
                }
                break;
            }
            if end + cols as u128 > from {
                out.push_str(clusters[i].as_str());
            }
            end = end + cols as u128;
            i = i + 1;
        }
        out
    }

    /// The frame over those areas.
    pub fn compose(
        &mut self,
        state: &ChatState,
        busy: bool,
        list: Area,
        field: Area,
        bottom: Area,
    ) -> (r: ChatFrame)
        requires
            old(self)@.well_formed(),
            field.y < u16::MAX,
        ensures
            final(self)@ == old(self)@.scrolled(TuiView::field_width(field)),
            final(self)@.well_formed(),
            r@ == old(self)@.frame(state@, busy, list, field, bottom),
    {
        let ghost start = self@;
        let lines = render_lines(state);
        let visible: usize = list.height.saturating_sub(2) as usize;
        let max: usize = lines.len().saturating_sub(visible);
        let offset: usize = if self.auto_follow || self.scroll > max {
            max
        } else {
            self.scroll
        };
        let shown: u16 = field.width.saturating_sub(2).saturating_sub(2);
        let part = self.visible_window(shown);
        let mut input: Vec<Span> = Vec::new();
        input.push(colored_span("\u{276f} ", Color::Green, true, false));
        input.push(
            Span { text: part, style: Style { color: None, bold: false, italic: false } },
        );
        let before = self.before();
        let column: usize = columns(before.as_str());
        let inside: usize = column - self.input_scroll;
        let x: u64 = field.x as u64 + 3 + inside as u64;
        let right: u16 = field.x.saturating_add(field.width);
        let last: u16 = right.saturating_sub(1);
        let caret_x: u16 = if x <= last as u64 {
            x as u16
        } else {
            last
        };
        let frame = ChatFrame {
            list_area: list,
            title: render_title(&state.session_id),
            lines,
            offset,
            input_area: field,
            input,
            caret_x,
            caret_y: field.y + 1,
            status_area: bottom,
            status: render_status(busy),
        };
        assert(frame@ =~= start.frame(state@, busy, list, field, bottom));
        frame
    }

    /// The frame over the whole screen: the conversation above, the input field
    /// and the status line below, the last two of three lines and one. There is
    /// one for every screen with room for seven lines, and for every screen that
    /// ends above the last line that can be counted; none where the input field
    /// would have to stand below that line.
    pub fn draw(&mut self, state: &ChatState, busy: bool, screen: Area) -> (r: Option<ChatFrame>)
        requires
            old(self)@.well_formed(),
        ensures
            final(self)@.well_formed(),
            match r {
                Some(f) => {
                    &&& f@ == old(self)@.frame(
                        state@,
                        busy,
                        f@.list_area,
                        f@.input_area,
                        f@.status_area,
                    )
                    &&& final(self)@ == old(self)@.scrolled(TuiView::field_width(f@.input_area))
                    &&& spans(f@.list_area, screen) && within(f@.list_area, screen)
                    &&& spans(f@.input_area, screen) && within(f@.input_area, screen)
                    &&& spans(f@.status_area, screen) && within(f@.status_area, screen)
                    &&& has_room(screen, 3, 3, 1) ==> stacked(
                        (f@.list_area, f@.input_area, f@.status_area),
                        screen,
                        3,
                        1,
                    )
                },
                None => {
                    &&& screen.y + screen.height >= u16::MAX
                    &&& !has_room(screen, 3, 3, 1)
                    &&& final(self)@ == old(self)@
                },
            },
    {
        let (list, field, bottom) = split_rows(screen, 3, 3, 1);
        if field.y == u16::MAX {
            return None;
        }
        Some(self.compose(state, busy, list, field, bottom))
    }
}

// ---------------------------------------------------------------------------
// laws
// ---------------------------------------------------------------------------

/// A key quits exactly where it is Ctrl-C or Ctrl-Q: a bare `q` never does, it
/// is typed.
pub proof fn law_bare_characters_never_quit(t: TuiView, c: char)
    requires
        t.well_formed(),
    ensures
        !(KeyEvent { code: KeyCode::Char(c), control: false }).quits(),
        t.after_key(KeyEvent { code: KeyCode::Char(c), control: false }) == t.inserted(
            seq![c],
        ).touched(),
{
}

proof fn lemma_encoding_of_a_prefix(s: Seq<char>, n: int)
    requires
        0 <= n <= s.len(),
    ensures
        ({
            let bytes = vstd::utf8::encode_utf8(s);
            let part = vstd::utf8::encode_utf8(s.take(n));
            &&& part.len() <= bytes.len()
            &&& vstd::utf8::is_char_boundary(bytes, part.len() as int)
        }),
    decreases n,
{
    let bytes = vstd::utf8::encode_utf8(s);
    let part = vstd::utf8::encode_utf8(s.take(n));
    vstd::utf8::encode_utf8_valid_utf8(s);
    if n > 0 {
        let rest = s.drop_first();
        lemma_encoding_of_a_prefix(rest, n - 1);
        assert(s.take(n).drop_first() =~= rest.take(n - 1));
        vstd::utf8::encode_utf8_first_scalar(s);
        assert(vstd::utf8::pop_first_scalar(bytes) =~= vstd::utf8::encode_utf8(rest));
    }
}

/// The cursor of a screen lies inside the bytes of its input, between two
/// characters.
pub proof fn law_cursor_stands_between_characters(t: TuiView)
    requires
        t.well_formed(),
    ensures
        t.on_boundary(),
{
    lemma_encoding_of_a_prefix(t.input, t.caret as int);
}

/// A key leaves the history as it is, but for Enter on a line that is not
/// blank, which joins it as the newest.
pub proof fn law_only_submissions_join_the_history(t: TuiView, key: KeyEvent)
    requires
        t.well_formed(),
    ensures
        t.after_key(key).history == t.kept_history(key),
        t.history == t.after_key(key).history.take(t.history.len() as int),
        t.after_key(key).history.len() == t.history.len() + (if key.code == KeyCode::Enter
            && !text::is_blank(t.input) {
            1nat
        } else {
            0nat
        }),
{
    assert(t.kept_history(key).take(t.history.len() as int) =~= t.history);
}

/// Inserting leaves what stands around the caret as it is, and the caret after
/// what was put in.
pub proof fn law_insertion_keeps_surroundings(t: TuiView, s: Seq<char>)
    requires
        t.well_formed(),
    ensures
        t.inserted(s).before() == t.before() + s,
        t.inserted(s).after() == t.after(),
{
    let n = t.inserted(s);
    assert(n.before() =~= t.before() + s);
    assert(n.after() =~= t.after());
}

/// Pasted text stays on one line and is capped.
pub proof fn law_paste_is_one_capped_line(s: Seq<char>)
    ensures
        ({
            let put = text::first_chars(single_line(s), PASTE_LIMIT as nat);
            &&& put.len() <= PASTE_LIMIT
            &&& forall|i: int|
                0 <= i < put.len() ==> #[trigger] put[i] != '\r' && put[i] != '\n'
        }),
{
}

/// A step back through the history is undone by a step forward.
pub proof fn law_forward_undoes_back(t: TuiView, p: nat)
    requires
        t.well_formed(),
        p + 1 < t.history.len(),
    ensures
        t.recalled(p).walked_back().walked_forward() == t.recalled(p).touched(),
{
}

/// Walking back from a fresh line recalls the submissions, the newest first,
/// and stops at the oldest.
pub proof fn law_history_is_recalled_newest_first(t: TuiView, steps: nat)
    requires
        t.history_pos is None,
        t.history.len() > 0,
        steps > 0,
    ensures
        ({
            let p = if steps <= t.history.len() {
                (steps - 1) as nat
            } else {
                (t.history.len() - 1) as nat
            };
            back(t, steps) == t.recalled(p).touched()
        }),
    decreases steps,
{
    reveal_with_fuel(back, 2);
    if steps > 1 {
        law_history_is_recalled_newest_first(t, (steps - 1) as nat);
    }
}

/// The screen after that many steps back through the history.
pub open spec fn back(t: TuiView, steps: nat) -> TuiView
    decreases steps,
{
    if steps == 0 {
        t
    } else {
        back(t, (steps - 1) as nat).walked_back()
    }
}

/// Enter clears the line. One that is not blank joins the history and goes to
/// the agent as its newest follow-up; a blank one is dropped.
pub proof fn law_enter_submits_what_is_not_blank(t: TuiView, agent: AgentView)
    requires
        t.well_formed(),
        t.seq < u64::MAX,
    ensures
        t.entered().input.len() == 0,
        text::is_blank(t.input) ==> t.entered().history == t.history && with_submission(
            agent,
            t.seq,
            t.submission(),
        ) == agent,
        !text::is_blank(t.input) ==> t.entered().history == t.history.push(t.input)
            && with_submission(agent, t.seq, t.submission()).next_turn.last().content
            == log::user_message_of(seq![], t.input).content,
{
}

/// However wide the field is, the caret's column is inside what it shows.
pub proof fn law_caret_stays_in_view(t: TuiView, width: nat)
    requires
        width > 0,
    ensures
        t.scrolled(width).input_scroll <= t.caret_column() < t.scrolled(width).input_scroll
            + width,
{
}

/// A field never shows part of a cluster: what it shows is a run of whole ones.
pub proof fn law_window_shows_whole_clusters(
    clusters: Seq<Seq<char>>,
    n: int,
    from: nat,
    to: nat,
) -> (r: (int, int))
    requires
        0 <= n <= clusters.len(),
    ensures
        0 <= r.0 <= r.1 <= n,
        window_text(clusters, n, from, to) == text::join(clusters.subrange(r.0, r.1), seq![]),
        r.0 < r.1 ==> end_column(clusters, r.1) <= to,
        r.1 < n ==> end_column(clusters, r.1 + 1) > to || end_column(clusters, n) <= from,
    decreases n,
{
    if n == 0 {
        assert(clusters.subrange(0, 0) =~= seq![]);
        (0, 0)
    } else {
        let (a, b) = law_window_shows_whole_clusters(clusters, n - 1, from, to);
        let run = clusters.subrange(a, b);
        if from < end_column(clusters, n) <= to {
            if b < n - 1 {
                lemma_columns_grow(clusters, b + 1, n);
                lemma_columns_grow(clusters, n - 1, n);
                assert(end_column(clusters, n - 1) <= from);
                lemma_window_blank(clusters, n - 1, from, to);
                let one = clusters.subrange(n - 1, n);
                assert(one =~= seq![clusters[n - 1]]);
                assert(seq![] + clusters[n - 1] =~= clusters[n - 1]);
                (n - 1, n)
            } else {
                let more = clusters.subrange(a, n);
                assert(more.drop_last() =~= run);
                assert(more.last() == clusters[n - 1]);
                assert(text::join(more, seq![]) =~= text::join(run, seq![]) + clusters[n - 1]);
                (a, n)
            }
        } else {
            if end_column(clusters, n) > to {
                if b == n - 1 {
                    (a, b)
                } else {
                    if end_column(clusters, b + 1) > to {
                        (a, b)
                    } else {
                        lemma_window_blank(clusters, n - 1, from, to);
                        assert(clusters.subrange(n - 1, n - 1) =~= seq![]);
                        (n - 1, n - 1)
                    }
                }
            } else {
                lemma_window_blank(clusters, n, from, to);
                assert(clusters.subrange(n, n) =~= seq![]);
                (n, n)
            }
        }
    }
}

proof fn lemma_window_blank(clusters: Seq<Seq<char>>, n: int, from: nat, to: nat)
    requires
        end_column(clusters, n) <= from,
    ensures
        window_text(clusters, n, from, to) == Seq::<char>::empty(),
    decreases n,
{
    if n > 0 {
        lemma_columns_grow(clusters, n - 1, n);
        lemma_window_blank(clusters, n - 1, from, to);
    }
}

/// A character is typed at the caret: what stood before it and behind it stays,
/// and the caret stands behind the character.
pub proof fn law_characters_are_typed_at_the_caret(t: TuiView, c: char)
    requires
        t.well_formed(),
    ensures
        ({
            let now = t.after_key(KeyEvent { code: KeyCode::Char(c), control: false });
            &&& now.input == t.input.insert(t.caret as int, c)
            &&& now.caret == t.caret + 1
            &&& now.history == t.history && now.history_pos is None
            &&& now.seq == t.seq && now.dirty
            &&& now.scroll == t.scroll && now.auto_follow == t.auto_follow
        }),
{
    let now = t.after_key(KeyEvent { code: KeyCode::Char(c), control: false });
    assert(now.input =~= t.input.insert(t.caret as int, c));
}

/// Backspace takes away the cluster before the caret, Left steps over it.
/// Everything else in the line stays.
pub proof fn law_caret_works_on_the_cluster_before_it(
    t: TuiView,
    front: Seq<char>,
    cluster: Seq<char>,
    behind: Seq<char>,
)
    requires
        t.input == front + cluster + behind,
        t.caret == front.len() + cluster.len(),
        last_grapheme_of(front + cluster) == Some(cluster),
    ensures
        ({
            let now = t.after_key(KeyEvent { code: KeyCode::Backspace, control: false });
            now == (TuiView { input: front + behind, caret: front.len(), dirty: true, ..t })
        }),
        ({
            let now = t.after_key(KeyEvent { code: KeyCode::Left, control: false });
            now == (TuiView { caret: front.len(), dirty: true, ..t })
        }),
{
    assert(t.before() =~= front + cluster);
    assert(t.after() =~= behind);
    assert((front + cluster).take(front.len() as int) =~= front);
}

/// Delete takes away the cluster behind the caret, Right steps over it.
/// Everything else in the line stays.
pub proof fn law_caret_works_on_the_cluster_behind_it(
    t: TuiView,
    front: Seq<char>,
    cluster: Seq<char>,
    behind: Seq<char>,
)
    requires
        t.input == front + cluster + behind,
        t.caret == front.len(),
        graphemes_of(cluster + behind).len() > 0,
        graphemes_of(cluster + behind)[0] == cluster,
    ensures
        ({
            let now = t.after_key(KeyEvent { code: KeyCode::Delete, control: false });
            now == (TuiView { input: front + behind, dirty: true, ..t })
        }),
        ({
            let now = t.after_key(KeyEvent { code: KeyCode::Right, control: false });
            now == (TuiView { caret: front.len() + cluster.len(), dirty: true, ..t })
        }),
{
    assert(t.before() =~= front);
    assert(t.after() =~= cluster + behind);
    assert((cluster + behind).skip(cluster.len() as int) =~= behind);
}

/// Home and Ctrl-A go to the front of the line, End and Ctrl-E to its end; the
/// line itself stays. Escape and Ctrl-U empty the line. A key without a meaning
/// changes nothing, and nothing changes on one that quits.
pub proof fn law_line_keys_do_what_they_say(t: TuiView, key: KeyEvent)
    ensures
        key.code == KeyCode::Home || (key.control && key.code == KeyCode::Char('a'))
            ==> t.after_key(key) == (TuiView { caret: 0, dirty: true, ..t }),
        key.code == KeyCode::End || (key.control && key.code == KeyCode::Char('e'))
            ==> t.after_key(key) == (TuiView { caret: t.input.len(), dirty: true, ..t }),
        key.code == KeyCode::Esc || (key.control && key.code == KeyCode::Char('u'))
            ==> t.after_key(key) == (TuiView {
            input: seq![],
            caret: 0,
            input_scroll: 0,
            history_pos: None,
            dirty: true,
            ..t
        }),
        key.code == KeyCode::Other ==> t.after_key(key) == t,
        key.control && (key.code == KeyCode::Char('c') || key.code == KeyCode::Char('q'))
            ==> key.quits() && t.after_key(key) == t,
        key.quits() ==> key.control && (key.code == KeyCode::Char('c') || key.code
            == KeyCode::Char('q')),
{
}

proof fn lemma_word_behind(front: Seq<char>, word: Seq<char>)
    requires
        front.len() == 0 || text::is_white(front.last()),
        forall|i: int| 0 <= i < word.len() ==> !text::is_white(#[trigger] word[i]),
    ensures
        word_start(front + word) == front.len(),
    decreases word.len(),
{
    let s = front + word;
    if word.len() == 0 {
        assert(s =~= front);
    } else {
        assert(s.last() == word[word.len() - 1]);
        assert(s.drop_last() =~= front + word.drop_last());
        lemma_word_behind(front, word.drop_last());
    }
}

proof fn lemma_blank_behind(s: Seq<char>, blank: Seq<char>)
    requires
        text::is_blank(blank),
        s.len() == 0 || !text::is_white(s.last()),
    ensures
        text::trim_end(s + blank) == s,
    decreases blank.len(),
{
    let all = s + blank;
    if blank.len() == 0 {
        assert(all =~= s);
    } else {
        assert(all.last() == blank[blank.len() - 1]);
        assert(all.drop_last() =~= s + blank.drop_last());
        assert forall|i: int| 0 <= i < blank.drop_last().len() implies text::is_white(
            #[trigger] blank.drop_last()[i],
        ) by {
            assert(blank.drop_last()[i] == blank[i]);
        }
        lemma_blank_behind(s, blank.drop_last());
    }
}

/// Ctrl-W takes away the word before the caret and the blanks behind that word;
/// what stands before the word and behind the caret stays.
pub proof fn law_word_before_the_caret_is_deleted(
    t: TuiView,
    front: Seq<char>,
    word: Seq<char>,
    blank: Seq<char>,
    behind: Seq<char>,
)
    requires
        t.input == front + word + blank + behind,
        t.caret == front.len() + word.len() + blank.len(),
        front.len() == 0 || text::is_white(front.last()),
        word.len() > 0,
        forall|i: int| 0 <= i < word.len() ==> !text::is_white(#[trigger] word[i]),
        text::is_blank(blank),
    ensures
        t.after_key(KeyEvent { code: KeyCode::Char('w'), control: true }) == (TuiView {
            input: front + behind,
            caret: front.len(),
            history_pos: None,
            dirty: true,
            ..t
        }),
{
    assert(t.before() =~= front + word + blank);
    assert(t.after() =~= behind);
    assert((front + word).last() == word[word.len() - 1]);
    lemma_blank_behind(front + word, blank);
    lemma_word_behind(front, word);
    assert(t.before().take(front.len() as int) =~= front);
}

/// Up shows an older line of the history with the caret at its end, Down a newer
/// one, and behind the newest an empty line. The history itself stays.
pub proof fn law_arrows_walk_the_history(t: TuiView, p: nat)
    requires
        t.history.len() > 0,
        p < t.history.len(),
    ensures
        ({
            let up = KeyEvent { code: KeyCode::Up, control: false };
            let down = KeyEvent { code: KeyCode::Down, control: false };
            let newest = t.history.last();
            &&& t.history_pos is None ==> t.after_key(up) == (TuiView {
                input: newest,
                caret: newest.len(),
                history_pos: Some(0),
                dirty: true,
                ..t
            })
            &&& t.history_pos is None ==> t.after_key(down) == t
            &&& t.history_pos == Some(p) && p + 1 < t.history.len() ==> t.after_key(up) == (
            TuiView {
                input: t.history[t.history.len() - 2 - p],
                caret: t.history[t.history.len() - 2 - p].len(),
                history_pos: Some(p + 1),
                dirty: true,
                ..t
            })
            &&& t.history_pos == Some(p) && p > 0 ==> t.after_key(down) == (TuiView {
                input: t.history[t.history.len() - p],
                caret: t.history[t.history.len() - p].len(),
                history_pos: Some((p - 1) as nat),
                dirty: true,
                ..t
            })
            &&& t.history_pos == Some(0nat) ==> t.after_key(down) == (TuiView {
                input: seq![],
                caret: 0,
                history_pos: None,
                dirty: true,
                ..t
            })
        }),
{
}

/// Enter hands the line over as a message of the user, under a number that goes
/// up with every submission, and leaves an empty line. Nothing else is lost.
pub proof fn law_submitted_line_becomes_a_message(t: TuiView, agent: AgentView)
    requires
        t.well_formed(),
        t.seq < u64::MAX,
        !text::is_blank(t.input),
    ensures
        ({
            let enter = KeyEvent { code: KeyCode::Enter, control: false };
            let now = t.after_key(enter);
            let after = with_submission(agent, t.seq, t.submitted(enter));
            let message = after.next_turn.last();
            &&& now.history == t.history.push(t.input)
            &&& now.seq == t.seq + 1
            &&& now.input.len() == 0 && now.caret == 0 && now.history_pos is None && now.dirty
            &&& after.next_turn == agent.next_turn.push(message)
            &&& after.next_step == agent.next_step
            &&& message.id == "u-"@ + text::decimal(now.seq as nat)
            &&& message.role == Role::User
            &&& message.content == seq![ContentBlockView::Text { text: t.input }]
        }),
{
}

/// The page keys scroll by ten lines. Up stops following the newest line; down
/// follows it again once the top is reached.
pub proof fn law_page_keys_scroll(t: TuiView)
    ensures
        ({
            let up = t.after_key(KeyEvent { code: KeyCode::PageUp, control: false });
            &&& !up.auto_follow && up.dirty
            &&& t.scroll + 10 <= usize::MAX ==> up.scroll == t.scroll + 10
            &&& t.scroll + 10 > usize::MAX ==> up.scroll == usize::MAX
            &&& up.input == t.input && up.caret == t.caret && up.history == t.history
        }),
        ({
            let down = t.after_key(KeyEvent { code: KeyCode::PageDown, control: false });
            &&& down.dirty
            &&& t.scroll > 10 ==> down.scroll == t.scroll - 10 && down.auto_follow
                == t.auto_follow
            &&& t.scroll <= 10 ==> down.scroll == 0 && down.auto_follow
            &&& down.input == t.input && down.caret == t.caret && down.history == t.history
        }),
{
}

proof fn lemma_breaks_behind(front: Seq<char>, s: Seq<char>)
    requires
        forall|i: int| 0 <= i < front.len() ==> #[trigger] front[i] != '\r',
    ensures
        text::replace_all(front + s, "\r\n"@, "\n"@) == front + text::replace_all(
            s,
            "\r\n"@,
            "\n"@,
        ),
    decreases front.len(),
{
    reveal_strlit("\r\n");
    if front.len() == 0 {
        assert(front + s =~= s);
        assert(front + text::replace_all(s, "\r\n"@, "\n"@) =~= text::replace_all(
            s,
            "\r\n"@,
            "\n"@,
        ));
    } else {
        let all = front + s;
        let tail = front.skip(1);
        assert(all.skip(1) =~= tail + s);
        assert(all[0] == front[0]);
        assert("\r\n"@[0] == '\r');
        assert(!"\r\n"@.is_prefix_of(all));
        lemma_breaks_behind(tail, s);
        assert(seq![all[0]] + (tail + text::replace_all(s, "\r\n"@, "\n"@)) =~= front
            + text::replace_all(s, "\r\n"@, "\n"@));
    }
}

/// Pasted text is put in whole, but for its line breaks: each of them, in
/// whichever form, becomes one space.
pub proof fn law_pasted_breaks_become_spaces(line: Seq<char>, rest: Seq<char>)
    requires
        forall|i: int| 0 <= i < line.len() ==> #[trigger] line[i] != '\r' && line[i] != '\n',
    ensures
        single_line(line) == line,
        single_line(line + seq!['\n'] + rest) == line + seq![' '] + single_line(rest),
        single_line(line + seq!['\r', '\n'] + rest) == line + seq![' '] + single_line(rest),
        rest.len() == 0 || rest[0] != '\n' ==> single_line(line + seq!['\r'] + rest) == line
            + seq![' '] + single_line(rest),
{
    reveal_strlit("\r\n");
    reveal_strlit("\n");
    let p = "\r\n"@;
    let r = "\n"@;
    assert(p =~= seq!['\r', '\n']);
    assert(r =~= seq!['\n']);
    let none: Seq<char> = seq![];
    lemma_breaks_behind(line, none);
    assert(line + none =~= line);
    assert(text::replace_all(none, p, r) =~= none);
    assert(single_line(line) =~= line);
    let kept = text::replace_all(rest, p, r);
    let feed = line + seq!['\n'];
    lemma_breaks_behind(feed, rest);
    assert(single_line(feed + rest) =~= line + seq![' '] + single_line(rest));
    let both = seq!['\r', '\n'] + rest;
    lemma_breaks_behind(line, both);
    assert(line + both =~= line + seq!['\r', '\n'] + rest);
    assert(p.is_prefix_of(both));
    assert(both.skip(2) =~= rest);
    assert(text::replace_all(both, p, r) == r + kept);
    assert(single_line(line + both) =~= line + seq![' '] + single_line(rest));
    if rest.len() == 0 || rest[0] != '\n' {
        let alone = seq!['\r'] + rest;
        lemma_breaks_behind(line, alone);
        assert(line + alone =~= line + seq!['\r'] + rest);
        if p.is_prefix_of(alone) {
            assert(alone[1] == p[1]);
        }
        assert(alone.skip(1) =~= rest);
        assert(text::replace_all(alone, p, r) == seq!['\r'] + kept);
        assert(single_line(line + alone) =~= line + seq![' '] + single_line(rest));
    }
}

/// Pasted text goes in at the caret, up to the limit, and nothing else changes.
pub proof fn law_paste_goes_in_at_the_caret(t: TuiView, s: Seq<char>)
    requires
        t.well_formed(),
    ensures
        ({
            let now = t.pasted(s);
            let put = single_line(s).take(
                if single_line(s).len() <= PASTE_LIMIT {
                    single_line(s).len() as int
                } else {
                    PASTE_LIMIT as int
                },
            );
            &&& now.input == t.input.take(t.caret as int) + put + t.input.skip(t.caret as int)
            &&& now.caret == t.caret + put.len()
            &&& now.history == t.history && now.seq == t.seq && now.dirty
        }),
{
    let put = text::first_chars(single_line(s), PASTE_LIMIT as nat);
    assert(single_line(s).take(single_line(s).len() as int) =~= single_line(s));
    assert(t.pasted(s).input =~= t.input.take(t.caret as int) + put + t.input.skip(
        t.caret as int,
    ));
}

/// Every line of the conversation is shown, in order and with its text, and what
/// is streaming stands below them; a failed result stands out.
pub proof fn law_conversation_is_shown(state: ChatStateView, i: int)
    requires
        0 <= i < state.items.len(),
    ensures
        ({
            let lines = conversation_lines(state);
            let shown = lines[i].last();
            &&& lines.len() == state.items.len() + (if state.pending.len() > 0 {
                1nat
            } else {
                0nat
            })
            &&& state.pending.len() > 0 ==> lines.last().len() == 1 && lines.last()[0].text
                == "\u{258d}"@ + state.pending
            &&& match state.items[i] {
                ChatItemView::User { text } => shown.text == text && lines[i][0].text
                    == "\u{276f} "@,
                ChatItemView::Assistant { text } => shown.text == text && lines[i][0].text
                    == "\u{25c8} "@,
                ChatItemView::ToolCall { name, arguments } => shown.text == name + " "@ + arguments
                    && lines[i][0].text == "\u{2699} "@,
                ChatItemView::ToolResult { text, is_error } => shown.text == text
                    && lines[i][0].text == "\u{21a9} "@ && (shown.style.color == Some(Color::Red)
                    <==> is_error),
                ChatItemView::System { text } => shown.text == text && lines[i].len() == 1,
            }
        }),
{
}

/// While the newest line is followed, the last screenful is shown; else the
/// screen stays where it was scrolled to, but no further down than that.
pub proof fn law_newest_line_is_followed(t: TuiView, lines: nat, height: u16)
    requires
        height >= 2,
        lines <= usize::MAX,
    ensures
        ({
            let offset = list_offset(t, lines, height);
            let visible = height - 2;
            &&& lines <= visible ==> offset == 0
            &&& t.auto_follow && lines > visible ==> offset + visible == lines
            &&& !t.auto_follow && t.scroll + visible <= lines ==> offset == t.scroll
            &&& offset + visible <= lines || offset == 0
        }),
{
}

/// A frame shows the session, whether the agent is at work, the conversation and
/// the part of the line around the caret, and puts the caret where it stands in
/// the line, as long as there is room.
pub proof fn law_frame_shows_the_chat(
    t: TuiView,
    state: ChatStateView,
    busy: bool,
    list: Area,
    field: Area,
    bottom: Area,
)
    requires
        field.width >= 5,
        field.x + field.width <= u16::MAX,
        field.y < u16::MAX,
    ensures
        ({
            let f = t.frame(state, busy, list, field, bottom);
            let width = (field.width - 4) as nat;
            let now = t.scrolled(width);
            &&& f.list_area == list && f.input_area == field && f.status_area == bottom
            &&& state.session_id matches Some(id) ==> f.title.text == " dsh chat \u{2014} "@ + id
                + " "@
            &&& state.session_id is None ==> f.title.text == " dsh chat "@
            &&& f.lines == conversation_lines(state)
            &&& f.input.len() == 2 && f.input[1].text == now.window(width)
            &&& f.caret_x == field.x + 3 + (t.caret_column() - now.input_scroll)
            &&& f.caret_y == field.y + 1
            &&& f.status[0].text == (if busy {
                "\u{25cf} running"@
            } else {
                "\u{25cb} idle"@
            })
        }),
{
    law_caret_stays_in_view(t, (field.width - 4) as nat);
}

/// A frame is due after a change on the screen or in the conversation, and while
/// the agent is at work; once it was noticed, an idle screen stays as it is.
pub proof fn law_idle_screen_is_not_drawn_again(t: TuiView, state: ChatStateView, busy: bool)
    ensures
        t.dirty || busy ==> t.redraw_due(state, busy),
        t.noticed(state).redraw_due(state, busy) == busy,
        state.items.len() as usize != t.last_items ==> t.redraw_due(state, busy),
        text::byte_length(state.pending) != t.last_pending ==> t.redraw_due(state, busy),
        t.noticed(state).input == t.input && t.noticed(state).caret == t.caret,
        t.noticed(state).history == t.history && t.noticed(state).seq == t.seq,
        t.noticed(state).scroll == t.scroll && t.noticed(state).auto_follow == t.auto_follow,
{
}

} // verus!

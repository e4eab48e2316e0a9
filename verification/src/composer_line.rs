//! The composer buffer as styled rows: one row per line of the buffer, the
//! mentions set off, and the cursor drawn as a block.

use vstd::prelude::*;

use crate::text::chars_of;

verus! {

/// How a span of the composer is drawn.
#[derive(Debug, Clone, Copy, PartialEq, Eq, Structural)]
pub enum SpanStyle {
    /// The prompt glyph before the first row.
    Prompt,
    /// The blank that lines a continuation row up under the prompt.
    Indent,
    /// Plain text.
    Text,
    /// Text of an `@` mention.
    Mention,
    /// The cursor block.
    Cursor,
    /// The cursor block on a mention.
    CursorOnMention,
}

/// A colour of the composer.
#[derive(Debug, Clone, Copy, PartialEq, Eq, Structural)]
pub enum Paint {
    /// The user's colour.
    User,
    /// The colour of what stands back.
    Muted,
    /// The colour of text.
    Text,
    /// The background of mentions.
    MentionBg,
    Black,
}

/// What a style looks like: its foreground and its background, where it sets
/// them, and whether it is bold.
#[derive(Debug, Clone, Copy, PartialEq, Eq)]
pub struct Look {
    pub fg: Option<Paint>,
    pub bg: Option<Paint>,
    pub bold: bool,
}

impl SpanStyle {
    /// What the style looks like.
    pub open spec fn looks(self) -> Look {
        match self {
            SpanStyle::Prompt => Look { fg: Some(Paint::User), bg: None, bold: true },
            SpanStyle::Indent => Look { fg: None, bg: None, bold: false },
            SpanStyle::Text => Look { fg: Some(Paint::Text), bg: None, bold: false },
            SpanStyle::Mention => Look {
                fg: Some(Paint::Text),
                bg: Some(Paint::MentionBg),
                bold: true,
            },
            SpanStyle::Cursor => Look {
                fg: Some(Paint::Black),
                bg: Some(Paint::Muted),
                bold: true,
            },
            SpanStyle::CursorOnMention => Look {
                fg: Some(Paint::Black),
                bg: Some(Paint::User),
                bold: true,
            },
        }
    }

    /// What the style looks like.
    pub fn look(self) -> (r: Look)
        ensures
            r == self.looks(),
    {
        match self {
            SpanStyle::Prompt => Look { fg: Some(Paint::User), bg: None, bold: true },
            SpanStyle::Indent => Look { fg: None, bg: None, bold: false },
            SpanStyle::Text => Look { fg: Some(Paint::Text), bg: None, bold: false },
            SpanStyle::Mention => Look {
                fg: Some(Paint::Text),
                bg: Some(Paint::MentionBg),
                bold: true,
            },
            SpanStyle::Cursor => Look {
                fg: Some(Paint::Black),
                bg: Some(Paint::Muted),
                bold: true,
            },
            SpanStyle::CursorOnMention => Look {
                fg: Some(Paint::Black),
                bg: Some(Paint::User),
                bold: true,
            },
        }
    }
}

/// A piece of a row, drawn in one style.
#[derive(Debug)]
pub struct Span {
    pub content: String,
    pub style: SpanStyle,
}

/// A row of the composer.
#[derive(Debug)]
pub struct Line {
    pub spans: Vec<Span>,
}

/// What a [`Span`] shows.
pub struct SpanView {
    pub content: Seq<char>,
    pub style: SpanStyle,
}

impl View for Span {
    type V = SpanView;

    open spec fn view(&self) -> SpanView {
        SpanView { content: self.content@, style: self.style }
    }
}

impl View for Line {
    type V = Seq<SpanView>;

    open spec fn view(&self) -> Seq<SpanView> {
        self.spans@.map_values(|s: Span| s@)
    }
}

/// What a list of rows shows.
pub open spec fn rows_view(lines: Seq<Line>) -> Seq<Seq<SpanView>> {
    lines.map_values(|l: Line| l@)
}

/// One drawn character.
pub struct Cell {
    pub ch: char,
    pub style: SpanStyle,
}

/// What the composer shows: the buffer, the character ranges of its mentions,
/// and the cursor.
pub struct Scene {
    pub chars: Seq<char>,
    pub mentions: Seq<(usize, usize)>,
    pub cursor: int,
}

/// The span that begins a row.
pub open spec fn lead(first: bool) -> SpanView {
    if first {
        SpanView { content: seq!['\u{276f}', ' '], style: SpanStyle::Prompt }
    } else {
        SpanView { content: seq![' ', ' '], style: SpanStyle::Indent }
    }
}

/// `cells` in as few spans as there are changes of style.
pub open spec fn runs(cells: Seq<Cell>) -> Seq<SpanView>
    decreases cells.len(),
{
    if cells.len() == 0 {
        Seq::empty()
    } else {
        let before = runs(cells.drop_last());
        let c = cells.last();
        if before.len() > 0 && before.last().style == c.style {
            before.drop_last().push(
                SpanView { content: before.last().content.push(c.ch), style: c.style },
            )
        } else {
            before.push(SpanView { content: seq![c.ch], style: c.style })
        }
    }
}

impl Scene {
    /// Character `i` belongs to a mention.
    pub open spec fn in_mention(self, i: int) -> bool {
        exists|m: int|
            0 <= m < self.mentions.len() && (#[trigger] self.mentions[m]).0 <= i
                < self.mentions[m].1
    }

    /// The style of position `i`; the end of the buffer is a position too.
    pub open spec fn style_at(self, i: int) -> SpanStyle {
        let mentioned = i < self.chars.len() && self.in_mention(i);
        if i == self.cursor {
            if mentioned {
                SpanStyle::CursorOnMention
            } else {
                SpanStyle::Cursor
            }
        } else if mentioned {
            SpanStyle::Mention
        } else {
            SpanStyle::Text
        }
    }

    /// Where the row that holds position `from` ends: at the next newline, or
    /// at the end of the buffer.
    pub open spec fn row_end(self, from: int) -> int
        decreases self.chars.len() - from,
    {
        if from >= self.chars.len() || self.chars[from] == '\n' {
            from
        } else {
            self.row_end(from + 1)
        }
    }

    /// What is drawn of character `i`.
    pub open spec fn cell_at(self, i: int) -> Cell {
        Cell { ch: self.chars[i], style: self.style_at(i) }
    }

    /// The characters of a row up to `to`.
    pub open spec fn cells_upto(self, from: int, to: int) -> Seq<Cell> {
        Seq::new((to - from) as nat, |i: int| self.cell_at(from + i))
    }

    /// The cells of a row: its characters, and a blank under the cursor where
    /// the cursor stands at the row's end.
    pub open spec fn row_cells(self, from: int, to: int) -> Seq<Cell> {
        if self.cursor == to {
            self.cells_upto(from, to).push(Cell { ch: ' ', style: self.style_at(to) })
        } else {
            self.cells_upto(from, to)
        }
    }

    /// The rows from position `from` on.
    pub open spec fn rows_from(self, from: int, first: bool) -> Seq<Seq<SpanView>>
        recommends
            0 <= from <= self.chars.len(),
        decreases self.chars.len() - from,
    {
        let to = self.row_end(from);
        let row = seq![lead(first)] + runs(self.row_cells(from, to));
        if from <= to < self.chars.len() {
            seq![row] + self.rows_from(to + 1, false)
        } else {
            seq![row]
        }
    }

    /// All rows.
    pub open spec fn rows(self) -> Seq<Seq<SpanView>> {
        self.rows_from(0, true)
    }
}

/// The scene of a buffer; a cursor past the end stands at the end.
pub open spec fn scene(chars: Seq<char>, mentions: Seq<(usize, usize)>, cursor: int) -> Scene {
    Scene {
        chars,
        mentions,
        cursor: if cursor <= chars.len() {
            cursor
        } else {
            chars.len() as int
        },
    }
}

// ---------------------------------------------------------------------------
// Drawing
// ---------------------------------------------------------------------------

/// The spans drawn so far: those that are closed, then the run that is open.
pub open spec fn drawn(
    closed: Seq<Span>,
    run: Seq<char>,
    style: Option<SpanStyle>,
) -> Seq<SpanView> {
    let views = closed.map_values(|s: Span| s@);
    match style {
        Some(st) => views.push(SpanView { content: run, style: st }),
        None => views,
    }
}

/// Draws `ch`: in the open run where that has the style, else in a new one.
fn push_styled_run(
    spans: &mut Vec<Span>,
    text: &mut String,
    current_style: &mut Option<SpanStyle>,
    style: SpanStyle,
    ch: char,
)
    requires
        *old(current_style) is None ==> old(text)@.len() == 0,
    ensures
        *final(current_style) == Some(style),
        drawn(final(spans)@, final(text)@, *final(current_style)) == ({
            let before = drawn(old(spans)@, old(text)@, *old(current_style));
            if *old(current_style) == Some(style) {
                before.drop_last().push(
                    SpanView { content: old(text)@.push(ch), style },
                )
            } else {
                before.push(SpanView { content: seq![ch], style })
            }
        }),
{
    let ghost before = drawn(spans@, text@, *current_style);
    let ghost closed = spans@.map_values(|s: Span| s@);
    match *current_style {
        Some(open) => {
            if open != style {
                let mut run = String::new();
                std::mem::swap(&mut run, text);
                spans.push(Span { content: run, style: open });
                assert(spans@.map_values(|s: Span| s@) =~= before);
            }
        },
        None => {},
    }
    *current_style = Some(style);
    text.push(ch);
    proof {
        if *old(current_style) == Some(style) {
            assert(before.drop_last() =~= closed);
        } else {
            assert(text@ =~= seq![ch]);
            assert(spans@.map_values(|s: Span| s@) =~= before);
        }
    }
}

/// Closes the open run and with it the row.
fn close_row(spans: Vec<Span>, text: String, current_style: Option<SpanStyle>) -> (line: Line)
    ensures
        line@ == drawn(spans@, text@, current_style),
{
    let mut spans = spans;
    match current_style {
        Some(style) => {
            let ghost views = spans@.map_values(|s: Span| s@);
            spans.push(Span { content: text, style });
            assert(spans@.map_values(|s: Span| s@) =~= views.push(
                SpanView { content: text@, style },
            ));
        },
        None => {},
    }
    Line { spans }
}

/// The span that begins a row.
fn lead_span(first: bool) -> (r: Span)
    ensures
        r@ == lead(first),
{
    let mut content = String::new();
    if first {
        content.push('\u{276f}');
        content.push(' ');
        assert(content@ =~= seq!['\u{276f}', ' ']);
        Span { content, style: SpanStyle::Prompt }
    } else {
        content.push(' ');
        content.push(' ');
        assert(content@ =~= seq![' ', ' ']);
        Span { content, style: SpanStyle::Indent }
    }
}

/// Whether character `i` belongs to a mention.
fn mentioned(mentions: &[(usize, usize)], i: usize) -> (r: bool)
    ensures
        r == (exists|m: int|
            0 <= m < mentions@.len() && (#[trigger] mentions@[m]).0 <= i < mentions@[m].1),
{
    let mut k: usize = 0;
    while k < mentions.len()
        invariant
            k <= mentions@.len(),
            forall|m: int| 0 <= m < k ==> !((#[trigger] mentions@[m]).0 <= i < mentions@[m].1),
        decreases mentions@.len() - k,
    {
        let (start, end) = mentions[k];
        if start <= i && i < end {
            assert(mentions@[k as int].0 <= i < mentions@[k as int].1);
            return true;
        }
        k += 1;
    }
    false
}

/// The style of position `i`.
fn style_of(n: usize, mentions: &[(usize, usize)], cursor: usize, i: usize, Ghost(sc): Ghost<Scene>) -> (r: SpanStyle)
    requires
        n == sc.chars.len(),
        mentions@ == sc.mentions,
        cursor == sc.cursor,
    ensures
        r == sc.style_at(i as int),
{
    let m = i < n && mentioned(mentions, i);
    if i == cursor {
        if m {
            SpanStyle::CursorOnMention
        } else {
            SpanStyle::Cursor
        }
    } else if m {
        SpanStyle::Mention
    } else {
        SpanStyle::Text
    }
}

/// The spans drawn so far are those of `cells`, after the row's lead.
spec fn shows(
    closed: Seq<Span>,
    run: Seq<char>,
    style: Option<SpanStyle>,
    first: bool,
    cells: Seq<Cell>,
) -> bool {
    &&& drawn(closed, run, style) == seq![lead(first)] + runs(cells)
    &&& style is None <==> cells.len() == 0
    &&& style is None ==> run.len() == 0
}

/// Drawing one more cell keeps the spans those of the cells.
proof fn draw_step(
    closed: Seq<Span>,
    run: Seq<char>,
    style: Option<SpanStyle>,
    first: bool,
    cells: Seq<Cell>,
    c: Cell,
)
    requires
        shows(closed, run, style, first, cells),
    ensures
        seq![lead(first)] + runs(cells.push(c)) == ({
            let before = drawn(closed, run, style);
            if style == Some(c.style) {
                before.drop_last().push(SpanView { content: run.push(c.ch), style: c.style })
            } else {
                before.push(SpanView { content: seq![c.ch], style: c.style })
            }
        }),
{
    let before = drawn(closed, run, style);
    let r = runs(cells);
    assert(cells.push(c).drop_last() =~= cells);
    if cells.len() > 0 {
        assert(r.len() > 0);
        assert(before.last() == r.last());
        assert(before.drop_last() =~= seq![lead(first)] + r.drop_last());
        if style == Some(c.style) {
            assert(seq![lead(first)] + runs(cells.push(c)) =~= before.drop_last().push(
                SpanView { content: run.push(c.ch), style: c.style },
            ));
        } else {
            assert(seq![lead(first)] + runs(cells.push(c)) =~= before.push(
                SpanView { content: seq![c.ch], style: c.style },
            ));
        }
    } else {
        assert(seq![lead(first)] + runs(cells.push(c)) =~= before.push(
            SpanView { content: seq![c.ch], style: c.style },
        ));
    }
}

/// Draws a buffer with the character ranges of its mentions given: one row per
/// line, the first after the prompt, the others indented under it; the cursor
/// is a block on the character it stands on, or a blank at a line's end.
pub fn styled_rows(buffer: &str, mentions: &[(usize, usize)], cursor_char_idx: usize) -> (r: Vec<
    Line,
>)
    ensures
        rows_view(r@) == scene(buffer@, mentions@, cursor_char_idx as int).rows(),
{
    let chars = chars_of(buffer);
    let n: usize = chars.len();
    let cursor: usize = if cursor_char_idx <= n {
        cursor_char_idx
    } else {
        n
    };
    let ghost sc = scene(buffer@, mentions@, cursor_char_idx as int);
    let ghost mut row_start: int = 0;
    let mut out: Vec<Line> = Vec::new();
    let mut spans: Vec<Span> = Vec::new();
    spans.push(lead_span(true));
    let mut run = String::new();
    let mut run_style: Option<SpanStyle> = None;
    let mut idx: usize = 0;
    proof {
        assert(sc.cells_upto(0, 0) =~= Seq::<Cell>::empty());
        assert(drawn(spans@, run@, run_style) =~= seq![lead(true)] + runs(sc.cells_upto(0, 0)));
        assert(rows_view(out@) + sc.rows_from(0, true) =~= sc.rows());
    }
    while idx < n
        invariant
            chars@ == sc.chars,
            mentions@ == sc.mentions,
            cursor == sc.cursor,
            n == chars@.len(),
            0 <= row_start <= idx <= n,
            cursor <= n,
            sc.row_end(row_start) == sc.row_end(idx as int),
            shows(spans@, run@, run_style, out@.len() == 0, sc.cells_upto(row_start, idx as int)),
            rows_view(out@) + sc.rows_from(row_start, out@.len() == 0) == sc.rows(),
        decreases n - idx,
    {
        let ch = chars[idx];
        let style = style_of(n, mentions, cursor, idx, Ghost(sc));
        let ghost first = out@.len() == 0;
        let ghost cells = sc.cells_upto(row_start, idx as int);
        if ch == '\n' {
            if idx == cursor {
                proof {
                    draw_step(spans@, run@, run_style, first, cells, Cell { ch: ' ', style });
                }
                push_styled_run(&mut spans, &mut run, &mut run_style, style, ' ');
            }
            let mut closed: Vec<Span> = Vec::new();
            closed.push(lead_span(false));
            std::mem::swap(&mut closed, &mut spans);
            let mut text = String::new();
            std::mem::swap(&mut text, &mut run);
            let ghost before = rows_view(out@);
            let line = close_row(closed, text, run_style);
            run_style = None;
            out.push(line);
            proof {
                assert(sc.row_end(idx as int) == idx);
                assert(line@ == seq![lead(first)] + runs(sc.row_cells(row_start, idx as int)));
                assert(rows_view(out@) =~= before.push(line@));
                let rest = sc.rows_from(idx + 1, false);
                assert(sc.rows_from(row_start, first) == seq![line@] + rest);
                assert(before + (seq![line@] + rest) =~= before.push(line@) + rest);
                row_start = idx + 1;
                assert(sc.cells_upto(row_start, row_start) =~= Seq::<Cell>::empty());
                assert(drawn(spans@, run@, run_style) =~= seq![lead(false)] + runs(
                    sc.cells_upto(row_start, row_start),
                ));
            }
        } else {
            proof {
                draw_step(spans@, run@, run_style, first, cells, Cell { ch, style });
                assert(sc.cell_at(row_start + (idx - row_start)) == Cell { ch, style });
                assert(cells.push(Cell { ch, style }) =~= sc.cells_upto(row_start, idx + 1));
            }
            push_styled_run(&mut spans, &mut run, &mut run_style, style, ch);
        }
        idx += 1;
    }
    let ghost first = out@.len() == 0;
    let ghost cells = sc.cells_upto(row_start, n as int);
    if cursor == n {
        let style = style_of(n, mentions, cursor, n, Ghost(sc));
        proof {
            draw_step(spans@, run@, run_style, first, cells, Cell { ch: ' ', style });
        }
        push_styled_run(&mut spans, &mut run, &mut run_style, style, ' ');
    }
    let ghost before = rows_view(out@);
    let line = close_row(spans, run, run_style);
    out.push(line);
    proof {
        assert(line@ == seq![lead(first)] + runs(sc.row_cells(row_start, n as int)));
        assert(rows_view(out@) =~= before.push(line@));
        assert(sc.rows_from(row_start, first) == seq![line@]);
        assert(before + seq![line@] =~= before.push(line@));
    }
    out
}

// ---------------------------------------------------------------------------
// Laws
// ---------------------------------------------------------------------------

/// The number of newlines from position `from` on.
pub open spec fn newlines(chars: Seq<char>, from: int) -> nat
    decreases chars.len() - from,
{
    if from < 0 || from >= chars.len() {
        0
    } else {
        newlines(chars, from + 1) + if chars[from] == '\n' {
            1nat
        } else {
            0nat
        }
    }
}

/// There is one row per line of the buffer.
pub proof fn one_row_per_line(sc: Scene)
    ensures
        sc.rows().len() == newlines(sc.chars, 0) + 1,
{
    rows_from_count(sc, 0, true);
}

proof fn rows_from_count(sc: Scene, from: int, first: bool)
    requires
        0 <= from <= sc.chars.len(),
    ensures
        sc.rows_from(from, first).len() == newlines(sc.chars, from) + 1,
    decreases sc.chars.len() - from,
{
    row_end_in_range(sc, from);
    let to = sc.row_end(from);
    if to < sc.chars.len() {
        rows_from_count(sc, to + 1, false);
    }
}

/// A row ends at a newline or at the end, with no newline in it.
proof fn row_end_in_range(sc: Scene, from: int)
    requires
        0 <= from <= sc.chars.len(),
    ensures
        from <= sc.row_end(from) <= sc.chars.len(),
        sc.row_end(from) < sc.chars.len() ==> sc.chars[sc.row_end(from)] == '\n',
        newlines(sc.chars, from) == newlines(sc.chars, sc.row_end(from)),
        forall|i: int| from <= i < sc.row_end(from) ==> sc.chars[i] != '\n',
    decreases sc.chars.len() - from,
{
    if from < sc.chars.len() && sc.chars[from] != '\n' {
        row_end_in_range(sc, from + 1);
    }
}

/// The text of spans.
pub open spec fn text_of(spans: Seq<SpanView>) -> Seq<char>
    decreases spans.len(),
{
    if spans.len() == 0 {
        Seq::empty()
    } else {
        text_of(spans.drop_last()) + spans.last().content
    }
}

/// The characters of cells.
pub open spec fn text_of_cells(cells: Seq<Cell>) -> Seq<char> {
    cells.map_values(|c: Cell| c.ch)
}

/// No run is empty, and no two in a row have the same style.
pub open spec fn alternating(spans: Seq<SpanView>) -> bool {
    &&& forall|i: int| 0 <= i < spans.len() ==> (#[trigger] spans[i]).content.len() > 0
    &&& forall|i: int, j: int|
        0 <= i && j == i + 1 && j < spans.len() ==> (#[trigger] spans[i]).style != (
        #[trigger] spans[j]).style
}

/// Runs show the characters of their cells, in order; no run is empty, and no
/// two in a row have the same style.
pub proof fn runs_show_cells(cells: Seq<Cell>)
    ensures
        text_of(runs(cells)) == text_of_cells(cells),
        alternating(runs(cells)),
    decreases cells.len(),
{
    if cells.len() > 0 {
        let before = runs(cells.drop_last());
        let c = cells.last();
        runs_show_cells(cells.drop_last());
        if before.len() > 0 && before.last().style == c.style {
            let span = SpanView { content: before.last().content.push(c.ch), style: c.style };
            text_of_push(before.drop_last(), span);
            assert(text_of(before.drop_last()) + before.last().content.push(c.ch) =~= text_of(
                before,
            ).push(c.ch));
        } else {
            let span = SpanView { content: seq![c.ch], style: c.style };
            text_of_push(before, span);
            assert(text_of(before) + seq![c.ch] =~= text_of(before).push(c.ch));
        }
        assert(text_of_cells(cells) =~= text_of_cells(cells.drop_last()).push(c.ch));
    } else {
        assert(text_of_cells(cells) =~= Seq::<char>::empty());
    }
}

proof fn text_of_push(spans: Seq<SpanView>, span: SpanView)
    ensures
        text_of(spans.push(span)) == text_of(spans) + span.content,
{
    assert(spans.push(span).drop_last() =~= spans);
}

/// Character `i` of a span, with the span's style.
pub open spec fn cell_in_span(span: SpanView, i: int) -> Cell {
    Cell { ch: span.content[i], style: span.style }
}

/// The characters of a span, each with the span's style.
pub open spec fn cells_of_span(span: SpanView) -> Seq<Cell> {
    Seq::new(span.content.len(), |i: int| cell_in_span(span, i))
}

/// The characters of spans, each with its style.
pub open spec fn cells_of(spans: Seq<SpanView>) -> Seq<Cell>
    decreases spans.len(),
{
    if spans.len() == 0 {
        Seq::empty()
    } else {
        cells_of(spans.drop_last()) + cells_of_span(spans.last())
    }
}

/// Runs show each of their cells in its own style.
pub proof fn runs_keep_cells(cells: Seq<Cell>)
    ensures
        cells_of(runs(cells)) == cells,
    decreases cells.len(),
{
    if cells.len() > 0 {
        let before = runs(cells.drop_last());
        let c = cells.last();
        runs_keep_cells(cells.drop_last());
        if before.len() > 0 && before.last().style == c.style {
            let span = SpanView { content: before.last().content.push(c.ch), style: c.style };
            assert(runs(cells).drop_last() =~= before.drop_last());
            assert forall|i: int| 0 <= i < before.last().content.len() implies #[trigger] cell_in_span(
                span,
                i,
            ) == cell_in_span(before.last(), i) by {}
            assert(cell_in_span(span, before.last().content.len() as int) == c);
            assert(cells_of_span(span) =~= cells_of_span(before.last()).push(c));
        } else {
            let span = SpanView { content: seq![c.ch], style: c.style };
            assert(runs(cells).drop_last() =~= before);
            assert(cell_in_span(span, 0) == c);
            assert(cells_of_span(span) =~= seq![c]);
        }
        assert(cells_of(runs(cells)) =~= cells_of(before).push(c));
        assert(cells =~= cells.drop_last().push(c));
    } else {
        assert(cells =~= Seq::<Cell>::empty());
    }
}

/// The rows' text without what begins each row, newlines between the rows.
pub open spec fn text_of_rows(rows: Seq<Seq<SpanView>>) -> Seq<char>
    decreases rows.len(),
{
    if rows.len() == 0 {
        Seq::empty()
    } else if rows.len() == 1 {
        text_of(rows[0].drop_first())
    } else {
        text_of(rows[0].drop_first()).push('\n') + text_of_rows(rows.drop_first())
    }
}

/// The buffer from position `from` on as it is shown: with a blank under the
/// cursor where that stands at a line's end.
pub open spec fn shown_from(sc: Scene, from: int) -> Seq<char> {
    if from <= sc.cursor && (sc.cursor == sc.chars.len() || sc.chars[sc.cursor] == '\n') {
        sc.chars.subrange(from, sc.cursor).push(' ') + sc.chars.skip(sc.cursor)
    } else {
        sc.chars.skip(from)
    }
}

/// The rows show the buffer, and nothing else but the blank under a cursor at
/// a line's end.
pub proof fn rows_show_buffer(sc: Scene)
    requires
        0 <= sc.cursor <= sc.chars.len(),
    ensures
        text_of_rows(sc.rows()) == shown_from(sc, 0),
{
    rows_from_show(sc, 0, true);
}

/// The text of one row.
proof fn row_shows(sc: Scene, from: int, to: int, first: bool)
    requires
        0 <= from <= to <= sc.chars.len(),
    ensures
        text_of((seq![lead(first)] + runs(sc.row_cells(from, to))).drop_first())
            == shown_in_row(sc, from, to),
{
    let cells = sc.row_cells(from, to);
    runs_show_cells(cells);
    assert((seq![lead(first)] + runs(cells)).drop_first() =~= runs(cells));
    assert forall|i: int| 0 <= i < to - from implies #[trigger] cells[i].ch == sc.chars[from + i] by {
        assert(cells[i] == sc.cell_at(from + i));
    }
    assert(text_of_cells(cells) =~= shown_in_row(sc, from, to));
}

/// What is shown of the row from `from` to `to`.
spec fn shown_in_row(sc: Scene, from: int, to: int) -> Seq<char> {
    if sc.cursor == to {
        sc.chars.subrange(from, to).push(' ')
    } else {
        sc.chars.subrange(from, to)
    }
}

/// What is shown is the first row, and after it what the other rows show.
proof fn shown_by_rows(sc: Scene, from: int, to: int)
    requires
        0 <= from <= to <= sc.chars.len(),
        0 <= sc.cursor <= sc.chars.len(),
        to < sc.chars.len() ==> sc.chars[to] == '\n',
        forall|i: int| from <= i < to ==> sc.chars[i] != '\n',
    ensures
        to < sc.chars.len() ==> shown_from(sc, from) == shown_in_row(sc, from, to).push('\n')
            + shown_from(sc, to + 1),
        to == sc.chars.len() ==> shown_from(sc, from) == shown_in_row(sc, from, to),
{
    if to < sc.chars.len() {
        assert(shown_from(sc, from) =~= shown_in_row(sc, from, to).push('\n') + shown_from(
            sc,
            to + 1,
        ));
    } else {
        assert(shown_from(sc, from) =~= shown_in_row(sc, from, to));
    }
}

proof fn rows_from_show(sc: Scene, from: int, first: bool)
    requires
        0 <= from <= sc.chars.len(),
        0 <= sc.cursor <= sc.chars.len(),
    ensures
        text_of_rows(sc.rows_from(from, first)) == shown_from(sc, from),
    decreases sc.chars.len() - from,
{
    row_end_in_range(sc, from);
    let to = sc.row_end(from);
    let row = seq![lead(first)] + runs(sc.row_cells(from, to));
    row_shows(sc, from, to, first);
    shown_by_rows(sc, from, to);
    let rows = sc.rows_from(from, first);
    if to < sc.chars.len() {
        let rest = sc.rows_from(to + 1, false);
        rows_from_show(sc, to + 1, false);
        rows_from_count(sc, to + 1, false);
        assert(rows == seq![row] + rest);
        assert(rows.drop_first() =~= rest);
    } else {
        assert(rows == seq![row]);
    }
}

/// Only the first row begins with the prompt; the others are indented to line
/// up under it.
pub proof fn prompt_on_first_row(sc: Scene)
    ensures
        forall|i: int|
            0 <= i < sc.rows().len() ==> (#[trigger] sc.rows()[i]).len() > 0 && sc.rows()[i][0]
                == lead(i == 0),
        lead(true).content.len() == lead(false).content.len(),
{
    rows_from_lead(sc, 0, true);
}

proof fn rows_from_lead(sc: Scene, from: int, first: bool)
    requires
        0 <= from <= sc.chars.len(),
    ensures
        forall|i: int|
            0 <= i < sc.rows_from(from, first).len() ==> (#[trigger] sc.rows_from(
                from,
                first,
            )[i]).len() > 0 && sc.rows_from(from, first)[i][0] == lead(first && i == 0),
    decreases sc.chars.len() - from,
{
    row_end_in_range(sc, from);
    let to = sc.row_end(from);
    let row = seq![lead(first)] + runs(sc.row_cells(from, to));
    let rows = sc.rows_from(from, first);
    assert(row[0] == lead(first));
    if to < sc.chars.len() {
        let rest = sc.rows_from(to + 1, false);
        rows_from_lead(sc, to + 1, false);
        assert forall|i: int| 0 <= i < rows.len() implies (#[trigger] rows[i]).len() > 0
            && rows[i][0] == lead(first && i == 0) by {
            if i > 0 {
                assert(rows[i] == rest[i - 1]);
            }
        }
    }
}

/// The cursor is black and bold, on the user's colour over a mention and on the
/// muted one elsewhere; every other character has the colour of text, and is
/// bold on the background of mentions just where it belongs to one.
pub proof fn cells_look(sc: Scene, i: int)
    requires
        0 <= i <= sc.chars.len(),
    ensures
        ({
            let mentioned = i < sc.chars.len() && sc.in_mention(i);
            let look = sc.style_at(i).looks();
            if i == sc.cursor {
                &&& look.fg == Some(Paint::Black)
                &&& look.bold
                &&& look.bg == Some(
                    if mentioned {
                        Paint::User
                    } else {
                        Paint::Muted
                    },
                )
            } else {
                &&& look.fg == Some(Paint::Text)
                &&& look.bold == mentioned
                &&& look.bg == if mentioned {
                    Some(Paint::MentionBg)
                } else {
                    None
                }
            }
        }),
{
}

/// The style of a row's cells: each is that of its position, and a blank under
/// the cursor has that of the row's end.
pub proof fn cells_in_row(sc: Scene, from: int, to: int, k: int)
    requires
        0 <= from <= to <= sc.chars.len(),
        0 <= k < sc.row_cells(from, to).len(),
    ensures
        sc.row_cells(from, to)[k].style == sc.style_at(from + k),
        sc.row_cells(from, to)[k].ch == if from + k < to {
            sc.chars[from + k]
        } else {
            ' '
        },
{
    if from + k < to {
        assert(sc.cells_upto(from, to)[k] == sc.cell_at(from + k));
    }
}

/// A style that draws the cursor.
pub open spec fn draws_cursor(style: SpanStyle) -> bool {
    style == SpanStyle::Cursor || style == SpanStyle::CursorOnMention
}

/// How many characters of a row are drawn as the cursor.
pub open spec fn cursors_in(row: Seq<SpanView>) -> nat
    decreases row.len(),
{
    if row.len() == 0 {
        0
    } else {
        cursors_in(row.drop_last()) + if draws_cursor(row.last().style) {
            row.last().content.len()
        } else {
            0
        }
    }
}

/// How many characters of the rows are drawn as the cursor.
pub open spec fn cursors_in_rows(rows: Seq<Seq<SpanView>>) -> nat
    decreases rows.len(),
{
    if rows.len() == 0 {
        0
    } else {
        cursors_in(rows[0]) + cursors_in_rows(rows.drop_first())
    }
}

/// The cursor is drawn once.
pub proof fn one_cursor(sc: Scene)
    requires
        0 <= sc.cursor <= sc.chars.len(),
    ensures
        cursors_in_rows(sc.rows()) == 1,
{
    cursors_from(sc, 0, true);
}

proof fn cursors_from(sc: Scene, from: int, first: bool)
    requires
        0 <= from <= sc.chars.len(),
        0 <= sc.cursor <= sc.chars.len(),
    ensures
        cursors_in_rows(sc.rows_from(from, first)) == if from <= sc.cursor {
            1nat
        } else {
            0nat
        },
    decreases sc.chars.len() - from,
{
    row_end_in_range(sc, from);
    let to = sc.row_end(from);
    let cells = sc.row_cells(from, to);
    let row = seq![lead(first)] + runs(cells);
    let rows = sc.rows_from(from, first);
    cursors_after_lead(first, runs(cells));
    cursors_of_runs(cells);
    cursors_upto(sc, from, to);
    if sc.cursor == to {
        assert(cells.drop_last() =~= sc.cells_upto(from, to));
        assert(draws_cursor(cells.last().style));
    }
    assert(cursors_in(row) == if from <= sc.cursor <= to {
        1nat
    } else {
        0nat
    });
    if to < sc.chars.len() {
        let rest = sc.rows_from(to + 1, false);
        cursors_from(sc, to + 1, false);
        assert(rows == seq![row] + rest);
        assert(rows.drop_first() =~= rest);
    } else {
        assert(rows == seq![row]);
        assert(rows.drop_first() =~= Seq::<Seq<SpanView>>::empty());
        assert(cursors_in_rows(rows.drop_first()) == 0);
    }
}

proof fn cursors_after_lead(first: bool, spans: Seq<SpanView>)
    ensures
        cursors_in(seq![lead(first)] + spans) == cursors_in(spans),
    decreases spans.len(),
{
    let row = seq![lead(first)] + spans;
    if spans.len() == 0 {
        assert(row.drop_last() =~= Seq::<SpanView>::empty());
        assert(row.last() == lead(first));
        assert(cursors_in(row.drop_last()) == 0);
    } else {
        assert(row.drop_last() =~= seq![lead(first)] + spans.drop_last());
        assert(row.last() == spans.last());
        cursors_after_lead(first, spans.drop_last());
    }
}

/// How many cells draw the cursor.
spec fn cursor_cells(cells: Seq<Cell>) -> nat
    decreases cells.len(),
{
    if cells.len() == 0 {
        0
    } else {
        cursor_cells(cells.drop_last()) + if draws_cursor(cells.last().style) {
            1nat
        } else {
            0nat
        }
    }
}

proof fn cursors_of_runs(cells: Seq<Cell>)
    ensures
        cursors_in(runs(cells)) == cursor_cells(cells),
    decreases cells.len(),
{
    if cells.len() > 0 {
        cursors_of_runs(cells.drop_last());
        let before = runs(cells.drop_last());
        let all = runs(cells);
        if before.len() > 0 && before.last().style == cells.last().style {
            assert(all.drop_last() =~= before.drop_last());
        } else {
            assert(all.drop_last() =~= before);
        }
    }
}

proof fn cursors_upto(sc: Scene, from: int, to: int)
    requires
        0 <= from <= to <= sc.chars.len(),
    ensures
        cursor_cells(sc.cells_upto(from, to)) == if from <= sc.cursor < to {
            1nat
        } else {
            0nat
        },
    decreases to - from,
{
    let cells = sc.cells_upto(from, to);
    if from < to {
        cursors_upto(sc, from, to - 1);
        assert(cells.drop_last() =~= sc.cells_upto(from, to - 1));
        assert(cells.last() == sc.cell_at(to - 1));
    }
}

/// The line that position `i` stands on: the newlines before it.
pub open spec fn line_of(chars: Seq<char>, i: int) -> int
    decreases i,
{
    if i <= 0 {
        0
    } else {
        line_of(chars, i - 1) + if chars[i - 1] == '\n' {
            1int
        } else {
            0int
        }
    }
}

/// The column of position `i`: the characters between it and the newline before
/// it.
pub open spec fn column_of(chars: Seq<char>, i: int) -> int
    decreases i,
{
    if i <= 0 || chars[i - 1] == '\n' {
        0
    } else {
        column_of(chars, i - 1) + 1
    }
}

/// The cells of row `line`, without what begins the row.
pub open spec fn cells_on(rows: Seq<Seq<SpanView>>, line: int) -> Seq<Cell> {
    cells_of(rows[line].drop_first())
}

/// Every character of the buffer but a newline is drawn at its line and its
/// column, as the character that it is. Where some mention reaches over it, it
/// is drawn as part of a mention, whichever mention that is; where none does, as
/// plain text; and with the cursor on it, as the cursor.
pub proof fn characters_are_drawn(
    chars: Seq<char>,
    mentions: Seq<(usize, usize)>,
    cursor: int,
    i: int,
)
    requires
        0 <= cursor,
        0 <= i < chars.len(),
        chars[i] != '\n',
    ensures
        ({
            let rows = scene(chars, mentions, cursor).rows();
            let cells = cells_on(rows, line_of(chars, i));
            let cell = cells[column_of(chars, i)];
            let mentioned = exists|m: int|
                0 <= m < mentions.len() && (#[trigger] mentions[m]).0 <= i && i < mentions[m].1;
            &&& 0 <= line_of(chars, i) < rows.len()
            &&& 0 <= column_of(chars, i) < cells.len()
            &&& cell.ch == chars[i]
            &&& mentioned && i != cursor ==> cell.style == SpanStyle::Mention
            &&& mentioned && i == cursor ==> cell.style == SpanStyle::CursorOnMention
            &&& !mentioned && i != cursor ==> cell.style == SpanStyle::Text
            &&& !mentioned && i == cursor ==> cell.style == SpanStyle::Cursor
        }),
{
    let sc = scene(chars, mentions, cursor);
    row_at(sc, 0, true, i);
    column_behind_newline(chars, i);
    let start = i - column_of(chars, i);
    let to = sc.row_end(start);
    row_end_in_range(sc, start);
    row_reaches(sc, start, i);
    assert(to != i);
    cells_in_row(sc, start, to, column_of(chars, i));
}

/// The cursor stands at its line and its column, or at those of the buffer's end
/// where it is past that; on a newline, and at the end, it is a blank.
pub proof fn cursor_is_drawn(chars: Seq<char>, mentions: Seq<(usize, usize)>, cursor: int)
    requires
        0 <= cursor,
    ensures
        ({
            let at = if cursor < chars.len() {
                cursor
            } else {
                chars.len() as int
            };
            let rows = scene(chars, mentions, cursor).rows();
            let cells = cells_on(rows, line_of(chars, at));
            let cell = cells[column_of(chars, at)];
            &&& 0 <= line_of(chars, at) < rows.len()
            &&& 0 <= column_of(chars, at) < cells.len()
            &&& cell.style == SpanStyle::Cursor || cell.style == SpanStyle::CursorOnMention
            &&& cell.ch == if at < chars.len() && chars[at] != '\n' {
                chars[at]
            } else {
                ' '
            }
        }),
{
    let sc = scene(chars, mentions, cursor);
    let at = sc.cursor;
    row_at(sc, 0, true, at);
    column_behind_newline(chars, at);
    let start = at - column_of(chars, at);
    let to = sc.row_end(start);
    row_end_in_range(sc, start);
    row_reaches(sc, start, at);
    cells_in_row(sc, start, to, column_of(chars, at));
}

/// A row has as many cells as its line has characters, and one more where the
/// cursor stands at the line's end.
pub proof fn rows_are_as_long_as_lines(
    chars: Seq<char>,
    mentions: Seq<(usize, usize)>,
    cursor: int,
    end: int,
)
    requires
        0 <= cursor,
        0 <= end <= chars.len(),
        end < chars.len() ==> chars[end] == '\n',
    ensures
        ({
            let rows = scene(chars, mentions, cursor).rows();
            let here = cursor == end || (end == chars.len() && cursor > end);
            cells_on(rows, line_of(chars, end)).len() == column_of(chars, end) + if here {
                1int
            } else {
                0int
            }
        }),
{
    let sc = scene(chars, mentions, cursor);
    row_at(sc, 0, true, end);
    column_behind_newline(chars, end);
    let start = end - column_of(chars, end);
    row_end_in_range(sc, start);
    row_reaches(sc, start, end);
    assert(sc.row_end(start) == end) by {
        if sc.row_end(start) > end {
            assert(sc.chars[end] != '\n');
        }
    }
}

/// Before a row stands the prompt, in the style of prompts, or the two blanks
/// that make up for it.
pub proof fn rows_begin_alike(chars: Seq<char>, mentions: Seq<(usize, usize)>, cursor: int)
    ensures
        ({
            let rows = scene(chars, mentions, cursor).rows();
            &&& rows[0][0].content == seq!['\u{276f}', ' ']
            &&& rows[0][0].style == SpanStyle::Prompt
            &&& forall|l: int|
                0 < l < rows.len() ==> (#[trigger] rows[l])[0].content == seq![' ', ' ']
                    && rows[l][0].style == SpanStyle::Indent
        }),
{
    let sc = scene(chars, mentions, cursor);
    prompt_on_first_row(sc);
    one_row_per_line(sc);
    assert(sc.rows()[0][0] == lead(true));
    assert forall|l: int| 0 < l < sc.rows().len() implies (#[trigger] sc.rows()[l])[0].content
        == seq![' ', ' '] && sc.rows()[l][0].style == SpanStyle::Indent by {
        assert(sc.rows()[l][0] == lead(false));
    }
}

/// A line begins behind a newline, or at the start, and has none in it up to
/// `i`.
proof fn column_behind_newline(chars: Seq<char>, i: int)
    requires
        0 <= i <= chars.len(),
    ensures
        0 <= column_of(chars, i) <= i,
        0 <= line_of(chars, i),
        forall|j: int| i - column_of(chars, i) <= j < i ==> chars[j] != '\n',
    decreases i,
{
    if i > 0 {
        column_behind_newline(chars, i - 1);
    }
}

/// A row reaches at least as far as there is no newline.
proof fn row_reaches(sc: Scene, from: int, i: int)
    requires
        0 <= from <= i <= sc.chars.len(),
        forall|j: int| from <= j < i ==> sc.chars[j] != '\n',
    ensures
        i <= sc.row_end(from),
    decreases i - from,
{
    row_end_in_range(sc, from);
    if from < i {
        assert(sc.chars[from] != '\n');
        row_reaches(sc, from + 1, i);
    }
}

/// Within a row, the column goes up and the line stays.
proof fn along_a_row(chars: Seq<char>, from: int, i: int)
    requires
        0 <= from <= i <= chars.len(),
        column_of(chars, from) == 0,
        forall|j: int| from <= j < i ==> chars[j] != '\n',
    ensures
        column_of(chars, i) == i - from,
        line_of(chars, i) == line_of(chars, from),
    decreases i - from,
{
    if from < i {
        along_a_row(chars, from, i - 1);
        assert(chars[i - 1] != '\n');
    }
}

/// The row of position `i` shows the cells of its line.
proof fn row_at(sc: Scene, from: int, first: bool, i: int)
    requires
        0 <= from <= i <= sc.chars.len(),
        column_of(sc.chars, from) == 0,
    ensures
        ({
            let rows = sc.rows_from(from, first);
            let l = line_of(sc.chars, i) - line_of(sc.chars, from);
            let start = i - column_of(sc.chars, i);
            &&& 0 <= l < rows.len()
            &&& start >= 0
            &&& cells_on(rows, l) == sc.row_cells(start, sc.row_end(start))
        }),
    decreases sc.chars.len() - from,
{
    row_end_in_range(sc, from);
    column_behind_newline(sc.chars, i);
    let to = sc.row_end(from);
    let cells = sc.row_cells(from, to);
    let row = seq![lead(first)] + runs(cells);
    let rows = sc.rows_from(from, first);
    assert(rows[0] == row);
    if i <= to {
        along_a_row(sc.chars, from, i);
        runs_keep_cells(cells);
        assert(row.drop_first() =~= runs(cells));
    } else {
        let rest = sc.rows_from(to + 1, false);
        along_a_row(sc.chars, from, to);
        assert(column_of(sc.chars, to + 1) == 0);
        assert(line_of(sc.chars, to + 1) == line_of(sc.chars, from) + 1);
        row_at(sc, to + 1, false, i);
        let l = line_of(sc.chars, i) - line_of(sc.chars, from);
        assert(rows == seq![row] + rest);
        assert(rows[l] == rest[l - 1]);
    }
}

/// Rows are seen as they are: each span with its text and its style, each row
/// with its spans, in order.
pub proof fn rows_are_seen_as_they_are(lines: Seq<Line>)
    ensures
        rows_view(lines).len() == lines.len(),
        forall|l: int|
            0 <= l < lines.len() ==> (#[trigger] rows_view(lines)[l]).len()
                == lines[l].spans@.len(),
        forall|l: int, k: int|
            0 <= l < lines.len() && 0 <= k < lines[l].spans@.len() ==> (#[trigger] rows_view(
                lines,
            )[l][k]).content == lines[l].spans@[k].content@ && rows_view(lines)[l][k].style
                == lines[l].spans@[k].style,
{
}

} // verus!

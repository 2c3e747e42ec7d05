//! Double-buffered screen: a grid of cells, text writing with wrapping and
//! clipping, box drawing, and the diff between two frames.

use vstd::prelude::*;
use crate::text::chars_of;
use crate::tui::cell::{Cell, Color, Style, blank_cell, color_body, plain_style, sgr, style_escape};
use crate::text::{decimal, push_decimal, push_str, string_push};
use crate::tui::layout::Rect;
use crate::unicode::{render_width, width_or_one};

verus! {

/// The mathematical content of a screen: its size and its cells in row-major order.
pub struct ScreenView {
    pub width: nat,
    pub height: nat,
    pub cells: Seq<Cell>,
}

/// Position of cell `(row, col)` in the row-major cell sequence.
pub open spec fn idx(v: ScreenView, row: int, col: int) -> int {
    row * v.width + col
}

/// Whether `(row, col)` lies on the screen.
pub open spec fn in_bounds(v: ScreenView, row: int, col: int) -> bool {
    0 <= row < v.height && 0 <= col < v.width
}

/// The cell at `(row, col)`.
pub open spec fn cell_at(v: ScreenView, row: int, col: int) -> Cell {
    v.cells[idx(v, row, col)]
}

/// The screen with `(row, col)` set to `c`; unchanged when out of bounds.
pub open spec fn put(v: ScreenView, row: int, col: int, c: Cell) -> ScreenView {
    if in_bounds(v, row, col) {
        ScreenView { cells: v.cells.update(idx(v, row, col), c), ..v }
    } else {
        v
    }
}

/// A screen of the given size holding blank cells only.
pub open spec fn blank_view(width: nat, height: nat) -> ScreenView {
    ScreenView { width, height, cells: Seq::new(width * height, |i: int| blank_cell()) }
}

/// A screen view whose cell sequence matches its size.
pub open spec fn wf_view(v: ScreenView) -> bool {
    &&& v.cells.len() == v.width * v.height
    &&& v.width <= u16::MAX
    &&& v.height <= u16::MAX
}

/// The text cell written for character `ch`.
pub open spec fn text_cell(ch: char, fg: Color, bg: Color, style: Style) -> Cell {
    Cell { char: ch, fg, bg, style, wide: false }
}

/// The continuation cell that follows a wide character.
pub open spec fn cont_cell(fg: Color, bg: Color, style: Style) -> Cell {
    Cell { char: ' ', fg, bg, style, wide: true }
}

/// Merging a zero-width character at `col`: when in view and not at the
/// start of the run, the previous cell takes the character and colors
/// (keeping its `wide` flag).
pub open spec fn merge_mark(
    v: ScreenView,
    row: int,
    col: int,
    start_col: int,
    ch: char,
    fg: Color,
    bg: Color,
    style: Style,
    in_view: bool,
) -> ScreenView {
    if !in_view || col <= start_col || !in_bounds(v, row, col - 1) {
        v
    } else {
        put(v, row, col - 1, Cell { char: ch, fg, bg, style, wide: cell_at(v, row, col - 1).wide })
    }
}

/// Writing character `ch` of width `w > 0` at `(row, col)`: the character
/// cell, plus a continuation cell when it is wide and the next column exists.
pub open spec fn put_char(v: ScreenView, row: int, col: int, ch: char, fg: Color, bg: Color, style: Style) -> ScreenView {
    let v1 = put(v, row, col, text_cell(ch, fg, bg, style));
    if render_width(ch) > 1 && col + 1 < v.width {
        put(v1, row, col + 1, cont_cell(fg, bg, style))
    } else {
        v1
    }
}

/// The screen after writing `text` on `row` from column `c` (the run started
/// at `start_col`), stopping at the right edge.
pub open spec fn write_run(
    v: ScreenView,
    row: int,
    start_col: int,
    c: int,
    text: Seq<char>,
    fg: Color,
    bg: Color,
    style: Style,
) -> ScreenView
    decreases text.len(),
{
    if text.len() == 0 || c >= v.width {
        v
    } else {
        let ch = text[0];
        if render_width(ch) == 0 {
            write_run(
                merge_mark(v, row, c, start_col, ch, fg, bg, style, true),
                row,
                start_col,
                c,
                text.drop_first(),
                fg,
                bg,
                style,
            )
        } else {
            write_run(
                put_char(v, row, c, ch, fg, bg, style),
                row,
                start_col,
                c + render_width(ch),
                text.drop_first(),
                fg,
                bg,
                style,
            )
        }
    }
}

/// Configuration of wrapped writing.
pub struct WrapSpec {
    /// Text wraps when `col + width > wrap_col`.
    pub wrap_col: int,
    /// Column where continuation lines start.
    pub left_margin: int,
    /// Last screen row written.
    pub max_row: int,
    /// Visual rows skipped before writing starts.
    pub skip_rows: int,
    /// Truncate at `wrap_col` instead of wrapping.
    pub no_wrap: bool,
    /// Also clip at the screen's own width and height.
    pub screen_bounded: bool,
}

/// Progress of wrapped writing.
pub struct WrapState {
    pub v: ScreenView,
    pub visual_row: int,
    pub col: int,
    pub screen_row: int,
    pub stopped: bool,
}

/// Moving to a new visual row (after a newline or a wrap).
pub open spec fn next_row(cfg: WrapSpec, s: WrapState) -> WrapState {
    let vr = s.visual_row + 1;
    let sr = if cfg.skip_rows == 0 || vr > cfg.skip_rows { s.screen_row + 1 } else { s.screen_row };
    WrapState { visual_row: vr, col: cfg.left_margin, screen_row: sr, ..s }
}

/// Placing a visible character at the current position, if past the
/// skipped rows and within the last row, then advancing the column.
pub open spec fn wrap_place(cfg: WrapSpec, s: WrapState, ch: char, fg: Color, bg: Color, style: Style) -> WrapState {
    let past_skip = cfg.skip_rows == 0 || s.visual_row >= cfg.skip_rows;
    let v2 = if past_skip && s.screen_row <= cfg.max_row {
        put_char(s.v, s.screen_row, s.col, ch, fg, bg, style)
    } else {
        s.v
    };
    WrapState { v: v2, col: s.col + render_width(ch), ..s }
}

/// One character of wrapped writing.
pub open spec fn wrap_step(
    cfg: WrapSpec,
    start_col: int,
    s: WrapState,
    ch: char,
    fg: Color,
    bg: Color,
    style: Style,
) -> WrapState {
    let w = render_width(ch);
    if w == 0 {
        let in_view = if cfg.skip_rows > 0 {
            s.visual_row >= cfg.skip_rows && s.screen_row <= cfg.max_row
        } else if cfg.screen_bounded {
            s.col < s.v.width && s.screen_row < s.v.height
        } else {
            s.screen_row <= cfg.max_row
        };
        WrapState { v: merge_mark(s.v, s.screen_row, s.col, start_col, ch, fg, bg, style, in_view), ..s }
    } else if ch == '\n' {
        let n = next_row(cfg, s);
        WrapState { stopped: n.screen_row > cfg.max_row, ..n }
    } else if s.col + w > cfg.wrap_col {
        if cfg.no_wrap {
            WrapState { stopped: true, ..s }
        } else {
            let n = next_row(cfg, s);
            if n.screen_row > cfg.max_row || (cfg.screen_bounded && n.screen_row >= s.v.height) {
                WrapState { stopped: true, ..n }
            } else {
                wrap_place(cfg, n, ch, fg, bg, style)
            }
        }
    } else {
        wrap_place(cfg, s, ch, fg, bg, style)
    }
}

/// Wrapped writing of `text` from state `s` until the text ends or writing stops.
pub open spec fn wrap_run(
    cfg: WrapSpec,
    start_col: int,
    s: WrapState,
    text: Seq<char>,
    fg: Color,
    bg: Color,
    style: Style,
) -> WrapState
    decreases text.len(),
{
    if text.len() == 0 || s.stopped {
        s
    } else {
        wrap_run(cfg, start_col, wrap_step(cfg, start_col, s, text[0], fg, bg, style), text.drop_first(), fg, bg, style)
    }
}

/// Wrapped writing never moves up, and moves at most one row past its last
/// row, where it stops.
pub proof fn lemma_wrap_run_rows(
    cfg: WrapSpec,
    start_col: int,
    s: WrapState,
    text: Seq<char>,
    fg: Color,
    bg: Color,
    style: Style,
)
    requires
        s.screen_row <= cfg.max_row + 1,
        s.screen_row > cfg.max_row ==> s.stopped,
    ensures
        s.screen_row <= wrap_run(cfg, start_col, s, text, fg, bg, style).screen_row <= cfg.max_row + 1,
    decreases text.len(),
{
    if text.len() > 0 && !s.stopped {
        let n = wrap_step(cfg, start_col, s, text[0], fg, bg, style);
        assert(s.screen_row <= n.screen_row <= s.screen_row + 1);
        lemma_wrap_run_rows(cfg, start_col, n, text.drop_first(), fg, bg, style);
    }
}

/// The state in which wrapped writing starts.
pub open spec fn wrap_start(v: ScreenView, start_row: int, start_col: int) -> WrapState {
    WrapState { v, visual_row: 0, col: start_col, screen_row: start_row, stopped: false }
}

/// Wrapping bounded by the screen itself: wrap (or truncate) at its width,
/// clip after its last row.
pub open spec fn screen_wrap_spec(v: ScreenView, wrap: bool) -> WrapSpec {
    WrapSpec {
        wrap_col: v.width as int,
        left_margin: 0,
        max_row: if v.height > 0 { v.height - 1 } else { 0 },
        skip_rows: 0,
        no_wrap: !wrap,
        screen_bounded: true,
    }
}

/// Wrapping at `wrap_col` with continuation lines at `left_margin`,
/// clipped after `max_row`, with `skip_rows` rows scrolled away.
pub open spec fn clip_wrap_spec(left_margin: int, max_row: int, wrap_col: int, skip_rows: int) -> WrapSpec {
    WrapSpec { wrap_col, left_margin, max_row, skip_rows, no_wrap: false, screen_bounded: false }
}

/// Configuration of wrapped writing (exec counterpart of [`WrapSpec`]).
struct WrapConfig {
    wrap_col: u16,
    left_margin: u16,
    max_row: u16,
    skip_rows: usize,
    no_wrap: bool,
    screen_bounded: bool,
}

impl WrapConfig {
    spec fn view(&self) -> WrapSpec {
        WrapSpec {
            wrap_col: self.wrap_col as int,
            left_margin: self.left_margin as int,
            max_row: self.max_row as int,
            skip_rows: self.skip_rows as int,
            no_wrap: self.no_wrap,
            screen_bounded: self.screen_bounded,
        }
    }
}

proof fn lemma_idx(w: int, h: int, row: int, col: int)
    by (nonlinear_arith)
    requires
        0 <= row < h,
        0 <= col < w,
    ensures
        0 <= row * w + col < w * h,
        row * w + col <= (h - 1) * w + (w - 1),
{
}

proof fn lemma_area_fits(w: int, h: int)
    by (nonlinear_arith)
    requires
        0 <= w <= 0xFFFF,
        0 <= h <= 0xFFFF,
    ensures
        0 <= w * h <= 0xFFFE0001,
{
}

proof fn lemma_idx_injective(w: int, r1: int, c1: int, r2: int, c2: int)
    by (nonlinear_arith)
    requires
        0 <= c1 < w,
        0 <= c2 < w,
        0 <= r1,
        0 <= r2,
        r1 * w + c1 == r2 * w + c2,
    ensures
        r1 == r2,
        c1 == c2,
{
    if r1 < r2 {
        assert(r1 * w + w <= r2 * w);
    } else if r2 < r1 {
        assert(r2 * w + w <= r1 * w);
    }
}

/// Setting one cell changes that cell only.
pub proof fn lemma_put_pointwise(v: ScreenView, row: int, col: int, c: Cell)
    requires
        wf_view(v),
    ensures
        wf_view(put(v, row, col, c)),
        put(v, row, col, c).width == v.width,
        put(v, row, col, c).height == v.height,
        forall|r: int, k: int|
            #![trigger cell_at(put(v, row, col, c), r, k)]
            in_bounds(v, r, k) ==> cell_at(put(v, row, col, c), r, k) == (if r == row && k == col {
                c
            } else {
                cell_at(v, r, k)
            }),
{
    if in_bounds(v, row, col) {
        lemma_idx(v.width as int, v.height as int, row, col);
    }
    assert forall|r: int, k: int|
        #![trigger cell_at(put(v, row, col, c), r, k)]
        in_bounds(v, r, k) implies cell_at(put(v, row, col, c), r, k) == (if r == row && k == col {
            c
        } else {
            cell_at(v, r, k)
        }) by {
        lemma_idx(v.width as int, v.height as int, r, k);
        if in_bounds(v, row, col) {
            lemma_idx(v.width as int, v.height as int, row, col);
            if idx(v, r, k) == idx(v, row, col) {
                lemma_idx_injective(v.width as int, r, k, row, col);
            }
        }
    }
}

/// `w` has the size of `v` and the cells of `v` on every row outside
/// `top..bottom`: drawing that led from `v` to `w` stayed within those rows.
pub open spec fn same_outside_rows(v: ScreenView, w: ScreenView, top: int, bottom: int) -> bool {
    &&& w.width == v.width
    &&& w.height == v.height
    &&& forall|r: int, k: int|
        #![trigger cell_at(w, r, k)]
        in_bounds(v, r, k) && (r < top || r >= bottom) ==> cell_at(w, r, k) == cell_at(v, r, k)
}

/// A view is unchanged outside any rows.
pub proof fn lemma_same_rows_refl(v: ScreenView, top: int, bottom: int)
    ensures
        same_outside_rows(v, v, top, bottom),
{
}

/// Staying within rows composes.
pub proof fn lemma_same_rows_trans(a: ScreenView, b: ScreenView, c: ScreenView, top: int, bottom: int)
    requires
        same_outside_rows(a, b, top, bottom),
        same_outside_rows(b, c, top, bottom),
    ensures
        same_outside_rows(a, c, top, bottom),
{
    assert forall|r: int, k: int|
        #![trigger cell_at(c, r, k)]
        in_bounds(a, r, k) && (r < top || r >= bottom) implies cell_at(c, r, k) == cell_at(a, r, k) by {
        assert(cell_at(b, r, k) == cell_at(a, r, k));
    }
}

/// Staying within some rows is staying within any wider range.
pub proof fn lemma_same_rows_widen(a: ScreenView, b: ScreenView, t1: int, b1: int, t2: int, b2: int)
    requires
        same_outside_rows(a, b, t1, b1),
        t2 <= t1,
        b1 <= b2,
    ensures
        same_outside_rows(a, b, t2, b2),
{
}

/// One more drawing step within rows `t1..b1`, inside `top..bottom`, keeps
/// the whole drawing within `top..bottom`.
pub proof fn lemma_same_rows_step(a: ScreenView, b: ScreenView, c: ScreenView, t1: int, b1: int, top: int, bottom: int)
    requires
        same_outside_rows(a, b, top, bottom),
        same_outside_rows(b, c, t1, b1),
        top <= t1,
        b1 <= bottom,
    ensures
        same_outside_rows(a, c, top, bottom),
{
    lemma_same_rows_widen(b, c, t1, b1, top, bottom);
    lemma_same_rows_trans(a, b, c, top, bottom);
}

/// Setting a cell stays within its row.
pub proof fn lemma_put_rows(v: ScreenView, row: int, col: int, c: Cell)
    requires
        wf_view(v),
    ensures
        wf_view(put(v, row, col, c)),
        same_outside_rows(v, put(v, row, col, c), row, row + 1),
{
    lemma_put_pointwise(v, row, col, c);
}

proof fn lemma_put_char_rows(v: ScreenView, row: int, col: int, ch: char, fg: Color, bg: Color, style: Style)
    requires
        wf_view(v),
    ensures
        wf_view(put_char(v, row, col, ch, fg, bg, style)),
        same_outside_rows(v, put_char(v, row, col, ch, fg, bg, style), row, row + 1),
{
    let v1 = put(v, row, col, text_cell(ch, fg, bg, style));
    lemma_put_rows(v, row, col, text_cell(ch, fg, bg, style));
    lemma_put_rows(v1, row, col + 1, cont_cell(fg, bg, style));
    lemma_same_rows_trans(v, v1, put(v1, row, col + 1, cont_cell(fg, bg, style)), row, row + 1);
}

proof fn lemma_merge_mark_rows(
    v: ScreenView,
    row: int,
    col: int,
    start_col: int,
    ch: char,
    fg: Color,
    bg: Color,
    style: Style,
    in_view: bool,
)
    requires
        wf_view(v),
    ensures
        wf_view(merge_mark(v, row, col, start_col, ch, fg, bg, style, in_view)),
        same_outside_rows(v, merge_mark(v, row, col, start_col, ch, fg, bg, style, in_view), row, row + 1),
{
    lemma_put_rows(v, row, col - 1, Cell { char: ch, fg, bg, style, wide: cell_at(v, row, col - 1).wide });
}

/// Writing a run of text on a row stays within that row.
pub proof fn lemma_write_run_rows(
    v: ScreenView,
    row: int,
    start_col: int,
    c: int,
    text: Seq<char>,
    fg: Color,
    bg: Color,
    style: Style,
)
    requires
        wf_view(v),
    ensures
        wf_view(write_run(v, row, start_col, c, text, fg, bg, style)),
        same_outside_rows(v, write_run(v, row, start_col, c, text, fg, bg, style), row, row + 1),
    decreases text.len(),
{
    if text.len() == 0 || c >= v.width {
    } else {
        let ch = text[0];
        if render_width(ch) == 0 {
            let v1 = merge_mark(v, row, c, start_col, ch, fg, bg, style, true);
            lemma_merge_mark_rows(v, row, c, start_col, ch, fg, bg, style, true);
            lemma_write_run_rows(v1, row, start_col, c, text.drop_first(), fg, bg, style);
            lemma_same_rows_trans(v, v1, write_run(v1, row, start_col, c, text.drop_first(), fg, bg, style), row, row + 1);
        } else {
            let v1 = put_char(v, row, c, ch, fg, bg, style);
            lemma_put_char_rows(v, row, c, ch, fg, bg, style);
            lemma_write_run_rows(v1, row, start_col, c + render_width(ch), text.drop_first(), fg, bg, style);
            lemma_same_rows_trans(
                v,
                v1,
                write_run(v1, row, start_col, c + render_width(ch), text.drop_first(), fg, bg, style),
                row,
                row + 1,
            );
        }
    }
}

/// Writing a text of single-column characters on a row from column `c`
/// leaves character `k` of the text, in the given colors and style, in
/// column `c + k` (as far as the row reaches), and every other column of
/// the row as it was.
pub proof fn lemma_write_run_reads_back(
    v: ScreenView,
    row: int,
    start_col: int,
    c: int,
    text: Seq<char>,
    fg: Color,
    bg: Color,
    style: Style,
)
    requires
        wf_view(v),
        0 <= row < v.height,
        0 <= c,
        forall|k: int| 0 <= k < text.len() ==> render_width(#[trigger] text[k]) == 1,
    ensures
        ({
            let w = write_run(v, row, start_col, c, text, fg, bg, style);
            &&& forall|k: int| 0 <= k < text.len() && c + k < v.width
                ==> cell_at(w, row, c + k) == text_cell(#[trigger] text[k], fg, bg, style)
            &&& forall|j: int| 0 <= j < v.width && !(c <= j < c + text.len())
                ==> #[trigger] cell_at(w, row, j) == cell_at(v, row, j)
        }),
    decreases text.len(),
{
    if text.len() == 0 || c >= v.width {
    } else {
        let ch = text[0];
        assert(render_width(text[0]) == 1);
        let v1 = put_char(v, row, c, ch, fg, bg, style);
        assert(v1 == put(v, row, c, text_cell(ch, fg, bg, style)));
        lemma_put_pointwise(v, row, c, text_cell(ch, fg, bg, style));
        let rest = text.drop_first();
        assert forall|k: int| 0 <= k < rest.len() implies render_width(#[trigger] rest[k]) == 1 by {
            assert(rest[k] == text[k + 1]);
        }
        lemma_write_run_reads_back(v1, row, start_col, c + 1, rest, fg, bg, style);
        let w = write_run(v, row, start_col, c, text, fg, bg, style);
        assert(w == write_run(v1, row, start_col, c + 1, rest, fg, bg, style));
        assert forall|k: int| 0 <= k < text.len() && c + k < v.width
            implies cell_at(w, row, c + k) == text_cell(#[trigger] text[k], fg, bg, style) by {
            if k == 0 {
                assert(cell_at(v1, row, c) == text_cell(ch, fg, bg, style));
                assert(!(c + 1 <= c < c + 1 + rest.len()));
            } else {
                assert(rest[k - 1] == text[k]);
                assert(cell_at(w, row, (c + 1) + (k - 1)) == text_cell(rest[k - 1], fg, bg, style));
            }
        }
        assert forall|j: int| 0 <= j < v.width && !(c <= j < c + text.len())
            implies #[trigger] cell_at(w, row, j) == cell_at(v, row, j) by {
            assert(cell_at(w, row, j) == cell_at(v1, row, j));
            assert(in_bounds(v, row, j));
        }
    }
}

proof fn lemma_wrap_step_rows(
    cfg: WrapSpec,
    start_col: int,
    s: WrapState,
    ch: char,
    fg: Color,
    bg: Color,
    style: Style,
    top: int,
)
    requires
        wf_view(s.v),
        !cfg.screen_bounded,
        top <= s.screen_row,
    ensures
        wf_view(wrap_step(cfg, start_col, s, ch, fg, bg, style).v),
        s.screen_row <= wrap_step(cfg, start_col, s, ch, fg, bg, style).screen_row,
        same_outside_rows(s.v, wrap_step(cfg, start_col, s, ch, fg, bg, style).v, top, cfg.max_row + 1),
{
    let w = render_width(ch);
    if w == 0 {
        let in_view = if cfg.skip_rows > 0 {
            s.visual_row >= cfg.skip_rows && s.screen_row <= cfg.max_row
        } else {
            s.screen_row <= cfg.max_row
        };
        lemma_merge_mark_rows(s.v, s.screen_row, s.col, start_col, ch, fg, bg, style, in_view);
        if in_view {
            lemma_same_rows_widen(
                s.v,
                merge_mark(s.v, s.screen_row, s.col, start_col, ch, fg, bg, style, in_view),
                s.screen_row,
                s.screen_row + 1,
                top,
                cfg.max_row + 1,
            );
        }
    } else if ch == '\n' {
    } else if s.col + w > cfg.wrap_col {
        if !cfg.no_wrap {
            let n = next_row(cfg, s);
            if !(n.screen_row > cfg.max_row) {
                let past_skip = cfg.skip_rows == 0 || n.visual_row >= cfg.skip_rows;
                if past_skip && n.screen_row <= cfg.max_row {
                    lemma_put_char_rows(n.v, n.screen_row, n.col, ch, fg, bg, style);
                    lemma_same_rows_widen(
                        n.v,
                        put_char(n.v, n.screen_row, n.col, ch, fg, bg, style),
                        n.screen_row,
                        n.screen_row + 1,
                        top,
                        cfg.max_row + 1,
                    );
                }
            }
        }
    } else {
        let past_skip = cfg.skip_rows == 0 || s.visual_row >= cfg.skip_rows;
        if past_skip && s.screen_row <= cfg.max_row {
            lemma_put_char_rows(s.v, s.screen_row, s.col, ch, fg, bg, style);
            lemma_same_rows_widen(
                s.v,
                put_char(s.v, s.screen_row, s.col, ch, fg, bg, style),
                s.screen_row,
                s.screen_row + 1,
                top,
                cfg.max_row + 1,
            );
        }
    }
}

/// Clipped wrapped writing stays between the row it starts on and its last row.
pub proof fn lemma_wrap_run_within(
    cfg: WrapSpec,
    start_col: int,
    s: WrapState,
    text: Seq<char>,
    fg: Color,
    bg: Color,
    style: Style,
    top: int,
)
    requires
        wf_view(s.v),
        !cfg.screen_bounded,
        top <= s.screen_row,
    ensures
        wf_view(wrap_run(cfg, start_col, s, text, fg, bg, style).v),
        same_outside_rows(s.v, wrap_run(cfg, start_col, s, text, fg, bg, style).v, top, cfg.max_row + 1),
    decreases text.len(),
{
    if text.len() == 0 || s.stopped {
    } else {
        let n = wrap_step(cfg, start_col, s, text[0], fg, bg, style);
        lemma_wrap_step_rows(cfg, start_col, s, text[0], fg, bg, style, top);
        lemma_wrap_run_within(cfg, start_col, n, text.drop_first(), fg, bg, style, top);
        lemma_same_rows_trans(
            s.v,
            n.v,
            wrap_run(cfg, start_col, n, text.drop_first(), fg, bg, style).v,
            top,
            cfg.max_row + 1,
        );
    }
}

/// Two well-formed views of the same size with equal cells everywhere are equal.
pub proof fn lemma_view_ext(v1: ScreenView, v2: ScreenView)
    requires
        wf_view(v1),
        wf_view(v2),
        v1.width == v2.width,
        v1.height == v2.height,
        forall|r: int, k: int| #![trigger cell_at(v1, r, k)] in_bounds(v1, r, k) ==> cell_at(v1, r, k) == cell_at(v2, r, k),
    ensures
        v1 == v2,
{
    assert forall|i: int| 0 <= i < v1.cells.len() implies v1.cells[i] == v2.cells[i] by {
        let w = v1.width as int;
        let r = i / w;
        let k = i % w;
        assert(v1.width > 0) by (nonlinear_arith)
            requires
                0 <= i < v1.width * v1.height,
        ;
        assert(i == r * w + k && 0 <= k < w && 0 <= r < v1.height) by (nonlinear_arith)
            requires
                w > 0,
                r == i / w,
                k == i % w,
                0 <= i < w * v1.height,
        ;
        assert(cell_at(v1, r, k) == cell_at(v2, r, k));
    }
    assert(v1.cells =~= v2.cells);
}

/// Whether `(row, col)` lies in `rect`.
pub open spec fn in_rect(rect: Rect, row: int, col: int) -> bool {
    rect.y <= row < rect.y + rect.height && rect.x <= col < rect.x + rect.width
}

/// The cells of `row` from column `c` up to `end` given the background `bg`.
pub open spec fn recolored_from(v: ScreenView, row: int, c: int, end: int, bg: Color) -> ScreenView
    decreases end - c,
{
    if c >= end {
        v
    } else {
        let v1 = if in_bounds(v, row, c) { put(v, row, c, Cell { bg, ..cell_at(v, row, c) }) } else { v };
        recolored_from(v1, row, c + 1, end, bg)
    }
}

/// The screen with every cell in rows `r0..r1` and columns `c0..c1` replaced by `cell`.
pub open spec fn fill_box(v: ScreenView, r0: int, r1: int, c0: int, c1: int, cell: Cell) -> ScreenView {
    ScreenView {
        cells: Seq::new(
            v.cells.len(),
            |i: int|
                {
                    let r = i / (v.width as int);
                    let k = i % (v.width as int);
                    if r0 <= r < r1 && c0 <= k < c1 { cell } else { v.cells[i] }
                },
        ),
        ..v
    }
}

/// A screen that differs from `v` exactly by the cells of a box set to
/// `cell` is [`fill_box`] of `v`.
pub proof fn lemma_fill_box(v: ScreenView, w: ScreenView, r0: int, r1: int, c0: int, c1: int, cell: Cell)
    requires
        wf_view(v),
        wf_view(w),
        w.width == v.width,
        w.height == v.height,
        forall|r: int, k: int|
            #![trigger cell_at(w, r, k)]
            in_bounds(v, r, k) ==> cell_at(w, r, k) == (if r0 <= r < r1 && c0 <= k < c1 { cell } else { cell_at(v, r, k) }),
    ensures
        w == fill_box(v, r0, r1, c0, c1, cell),
{
    let fv = fill_box(v, r0, r1, c0, c1, cell);
    assert forall|r: int, k: int| #![trigger cell_at(w, r, k)] in_bounds(w, r, k) implies cell_at(w, r, k) == cell_at(fv, r, k) by {
        let wd = v.width as int;
        let i = r * wd + k;
        vstd::arithmetic::div_mod::lemma_fundamental_div_mod_converse(i, wd, r, k);
        assert(i < v.cells.len()) by (nonlinear_arith)
            requires
                0 <= r < v.height,
                0 <= k < wd,
                i == r * wd + k,
                v.cells.len() == wd * v.height,
        ;
        assert(0 <= i) by (nonlinear_arith)
            requires
                0 <= r,
                0 <= k,
                0 <= wd,
                i == r * wd + k,
        ;
        assert(idx(v, r, k) == i);
    }
    lemma_view_ext(w, fv);
}

/// The border character drawn at `(row, col)` by [`Screen::draw_box`], if any.
pub open spec fn box_char(rect: Rect, row: int, col: int) -> Option<char> {
    let x = rect.x as int;
    let y = rect.y as int;
    let x2 = x + rect.width - 1;
    let y2 = y + rect.height - 1;
    if rect.width < 2 || rect.height < 2 {
        None
    } else if row == y && col == x {
        Some('┌')
    } else if row == y && col == x2 {
        Some('┐')
    } else if row == y2 && col == x {
        Some('└')
    } else if row == y2 && col == x2 {
        Some('┘')
    } else if (row == y || row == y2) && x < col < x2 {
        Some('─')
    } else if (col == x || col == x2) && y < row < y2 {
        Some('│')
    } else {
        None
    }
}

/// The screen with the border of `rect` drawn (see [`box_char`]).
pub open spec fn boxed_view(v: ScreenView, rect: Rect, fg: Color, bg: Color, style: Style) -> ScreenView {
    ScreenView {
        cells: Seq::new(
            v.cells.len(),
            |i: int|
                match box_char(rect, i / (v.width as int), i % (v.width as int)) {
                    Some(c) => Cell { char: c, fg, bg, style, wide: false },
                    None => v.cells[i],
                },
        ),
        ..v
    }
}

/// A screen that differs from `v` exactly by the border of `rect` is [`boxed_view`] of `v`.
pub proof fn lemma_boxed_view(v: ScreenView, w: ScreenView, rect: Rect, fg: Color, bg: Color, style: Style)
    requires
        wf_view(v),
        wf_view(w),
        w.width == v.width,
        w.height == v.height,
        forall|r: int, k: int|
            #![trigger cell_at(w, r, k)]
            in_bounds(v, r, k) ==> cell_at(w, r, k) == (match box_char(rect, r, k) {
                Some(c) => Cell { char: c, fg, bg, style, wide: false },
                None => cell_at(v, r, k),
            }),
    ensures
        w == boxed_view(v, rect, fg, bg, style),
{
    let bv = boxed_view(v, rect, fg, bg, style);
    assert forall|r: int, k: int| #![trigger cell_at(w, r, k)] in_bounds(w, r, k) implies cell_at(w, r, k) == cell_at(bv, r, k) by {
        let wd = v.width as int;
        let i = r * wd + k;
        vstd::arithmetic::div_mod::lemma_fundamental_div_mod_converse(i, wd, r, k);
        assert(i < v.cells.len()) by (nonlinear_arith)
            requires
                0 <= r < v.height,
                0 <= k < wd,
                i == r * wd + k,
                v.cells.len() == wd * v.height,
        ;
        assert(0 <= i) by (nonlinear_arith)
            requires
                0 <= r,
                0 <= k,
                0 <= wd,
                i == r * wd + k,
        ;
        assert(idx(v, r, k) == i);
    }
    lemma_view_ext(w, bv);
}

/// A rendering operation produced by diffing two screens.
#[derive(Clone, Copy, Debug, PartialEq)]
pub enum DiffOp {
    /// Set the cell at (row, col) to the given value.
    SetCell { row: u16, col: u16, cell: Cell },
}

/// The changed cells among the first `ncols` columns of `row`.
pub open spec fn row_changes(prev: ScreenView, cur: ScreenView, row: int, ncols: int) -> Seq<DiffOp>
    decreases ncols,
{
    if ncols <= 0 {
        Seq::empty()
    } else {
        let k = ncols - 1;
        let rest = row_changes(prev, cur, row, k);
        if cell_at(prev, row, k) != cell_at(cur, row, k) {
            rest.push(DiffOp::SetCell { row: row as u16, col: k as u16, cell: cell_at(cur, row, k) })
        } else {
            rest
        }
    }
}

/// The changed cells in the first `nrows` rows and `ncols` columns, row by row.
pub open spec fn overlap_changes(prev: ScreenView, cur: ScreenView, nrows: int, ncols: int) -> Seq<DiffOp>
    decreases nrows,
{
    if nrows <= 0 {
        Seq::empty()
    } else {
        overlap_changes(prev, cur, nrows - 1, ncols) + row_changes(prev, cur, nrows - 1, ncols)
    }
}

/// All cells among the first `ncols` columns of `row`.
pub open spec fn row_cells(cur: ScreenView, row: int, ncols: int) -> Seq<DiffOp>
    decreases ncols,
{
    if ncols <= 0 {
        Seq::empty()
    } else {
        row_cells(cur, row, ncols - 1).push(
            DiffOp::SetCell { row: row as u16, col: (ncols - 1) as u16, cell: cell_at(cur, row, ncols - 1) },
        )
    }
}

/// All cells of rows `from..to`, row by row.
pub open spec fn rows_cells(cur: ScreenView, from: int, to: int) -> Seq<DiffOp>
    decreases to - from,
{
    if to <= from {
        Seq::empty()
    } else {
        rows_cells(cur, from, to - 1) + row_cells(cur, to - 1, cur.width as int)
    }
}

pub open spec fn min_int(a: int, b: int) -> int {
    if a <= b { a } else { b }
}

/// The cells of `row` in columns `from..to`.
pub open spec fn row_tail(cur: ScreenView, row: int, from: int, to: int) -> Seq<DiffOp>
    decreases to - from,
{
    if to <= from {
        Seq::empty()
    } else {
        row_tail(cur, row, from, to - 1).push(DiffOp::SetCell { row: row as u16, col: (to - 1) as u16, cell: cell_at(cur, row, to - 1) })
    }
}

/// The cells of the first `nrows` rows in the columns from `from` to the
/// right edge of `cur`, row by row.
pub open spec fn rows_tails(cur: ScreenView, nrows: int, from: int) -> Seq<DiffOp>
    decreases nrows,
{
    if nrows <= 0 {
        Seq::empty()
    } else {
        rows_tails(cur, nrows - 1, from) + row_tail(cur, nrows - 1, from, cur.width as int)
    }
}

/// The operations that bring a terminal showing `prev` to `cur`: the changed
/// cells of the area both screens share, then every cell of the columns
/// that only `cur` has in the rows both have, then every cell of the rows
/// that only `cur` has.
pub open spec fn screen_diff(prev: ScreenView, cur: ScreenView) -> Seq<DiffOp> {
    overlap_changes(prev, cur, min_int(prev.height as int, cur.height as int), min_int(prev.width as int, cur.width as int))
        + rows_tails(cur, min_int(prev.height as int, cur.height as int), prev.width as int)
        + rows_cells(cur, prev.height as int, cur.height as int)
}

/// The screen after applying the operations in order.
pub open spec fn apply_ops(v: ScreenView, ops: Seq<DiffOp>) -> ScreenView
    decreases ops.len(),
{
    if ops.len() == 0 {
        v
    } else {
        match ops.last() {
            DiffOp::SetCell { row, col, cell } => put(apply_ops(v, ops.drop_last()), row as int, col as int, cell),
        }
    }
}

proof fn lemma_apply_wf(v: ScreenView, ops: Seq<DiffOp>)
    requires
        wf_view(v),
    ensures
        wf_view(apply_ops(v, ops)),
        apply_ops(v, ops).width == v.width,
        apply_ops(v, ops).height == v.height,
    decreases ops.len(),
{
    if ops.len() > 0 {
        lemma_apply_wf(v, ops.drop_last());
        match ops.last() {
            DiffOp::SetCell { row, col, cell } => {
                lemma_put_pointwise(apply_ops(v, ops.drop_last()), row as int, col as int, cell);
            },
        }
    }
}

proof fn lemma_row_changes_pointwise(prev: ScreenView, cur: ScreenView, v: ScreenView, row: int, n: int)
    requires
        wf_view(prev),
        wf_view(cur),
        wf_view(v),
        cur.width == v.width,
        cur.height == v.height,
        0 <= row < v.height,
        row < prev.height,
        0 <= n <= v.width,
        n <= prev.width,
    ensures
        wf_view(apply_ops(v, row_changes(prev, cur, row, n))),
        apply_ops(v, row_changes(prev, cur, row, n)).width == v.width,
        apply_ops(v, row_changes(prev, cur, row, n)).height == v.height,
        forall|r: int, k: int|
            #![trigger cell_at(apply_ops(v, row_changes(prev, cur, row, n)), r, k)]
            in_bounds(v, r, k) ==> cell_at(apply_ops(v, row_changes(prev, cur, row, n)), r, k) == (if r == row && k
                < n && cell_at(prev, r, k) != cell_at(cur, r, k) {
                cell_at(cur, r, k)
            } else {
                cell_at(v, r, k)
            }),
    decreases n,
{
    if n > 0 {
        lemma_row_changes_pointwise(prev, cur, v, row, n - 1);
        let ops = row_changes(prev, cur, row, n);
        let rest = row_changes(prev, cur, row, n - 1);
        if cell_at(prev, row, n - 1) != cell_at(cur, row, n - 1) {
            assert(ops.drop_last() =~= rest);
            lemma_put_pointwise(apply_ops(v, rest), row, n - 1, cell_at(cur, row, n - 1));
        }
    }
}

proof fn lemma_apply_concat(v: ScreenView, a: Seq<DiffOp>, b: Seq<DiffOp>)
    ensures
        apply_ops(v, a + b) == apply_ops(apply_ops(v, a), b),
    decreases b.len(),
{
    if b.len() == 0 {
        assert(a + b =~= a);
    } else {
        assert((a + b).drop_last() =~= a + b.drop_last());
        lemma_apply_concat(v, a, b.drop_last());
    }
}

proof fn lemma_overlap_pointwise(prev: ScreenView, cur: ScreenView, v: ScreenView, nrows: int, ncols: int)
    requires
        wf_view(prev),
        wf_view(cur),
        wf_view(v),
        cur.width == v.width,
        cur.height == v.height,
        0 <= nrows <= v.height,
        nrows <= prev.height,
        0 <= ncols <= v.width,
        ncols <= prev.width,
    ensures
        wf_view(apply_ops(v, overlap_changes(prev, cur, nrows, ncols))),
        apply_ops(v, overlap_changes(prev, cur, nrows, ncols)).width == v.width,
        apply_ops(v, overlap_changes(prev, cur, nrows, ncols)).height == v.height,
        forall|r: int, k: int|
            #![trigger cell_at(apply_ops(v, overlap_changes(prev, cur, nrows, ncols)), r, k)]
            in_bounds(v, r, k) ==> cell_at(apply_ops(v, overlap_changes(prev, cur, nrows, ncols)), r, k) == (if r
                < nrows && k < ncols && cell_at(prev, r, k) != cell_at(cur, r, k) {
                cell_at(cur, r, k)
            } else {
                cell_at(v, r, k)
            }),
    decreases nrows,
{
    if nrows > 0 {
        lemma_overlap_pointwise(prev, cur, v, nrows - 1, ncols);
        let first = overlap_changes(prev, cur, nrows - 1, ncols);
        let mid = apply_ops(v, first);
        lemma_apply_concat(v, first, row_changes(prev, cur, nrows - 1, ncols));
        lemma_row_changes_pointwise(prev, cur, mid, nrows - 1, ncols);
    }
}

proof fn lemma_row_tail_pointwise(cur: ScreenView, v: ScreenView, row: int, from: int, to: int)
    requires
        wf_view(cur),
        wf_view(v),
        cur.width == v.width,
        cur.height == v.height,
        0 <= row < v.height,
        0 <= from,
        to <= v.width,
    ensures
        wf_view(apply_ops(v, row_tail(cur, row, from, to))),
        apply_ops(v, row_tail(cur, row, from, to)).width == v.width,
        apply_ops(v, row_tail(cur, row, from, to)).height == v.height,
        forall|r: int, k: int|
            #![trigger cell_at(apply_ops(v, row_tail(cur, row, from, to)), r, k)]
            in_bounds(v, r, k) ==> cell_at(apply_ops(v, row_tail(cur, row, from, to)), r, k) == (if r == row && from <= k < to {
                cell_at(cur, r, k)
            } else {
                cell_at(v, r, k)
            }),
    decreases to - from,
{
    if to > from {
        lemma_row_tail_pointwise(cur, v, row, from, to - 1);
        let rest = row_tail(cur, row, from, to - 1);
        assert(row_tail(cur, row, from, to).drop_last() =~= rest);
        lemma_put_pointwise(apply_ops(v, rest), row, to - 1, cell_at(cur, row, to - 1));
    }
}

proof fn lemma_rows_tails_pointwise(cur: ScreenView, v: ScreenView, nrows: int, from: int)
    requires
        wf_view(cur),
        wf_view(v),
        cur.width == v.width,
        cur.height == v.height,
        0 <= nrows <= v.height,
        0 <= from,
    ensures
        wf_view(apply_ops(v, rows_tails(cur, nrows, from))),
        apply_ops(v, rows_tails(cur, nrows, from)).width == v.width,
        apply_ops(v, rows_tails(cur, nrows, from)).height == v.height,
        forall|r: int, k: int|
            #![trigger cell_at(apply_ops(v, rows_tails(cur, nrows, from)), r, k)]
            in_bounds(v, r, k) ==> cell_at(apply_ops(v, rows_tails(cur, nrows, from)), r, k) == (if r < nrows && from <= k {
                cell_at(cur, r, k)
            } else {
                cell_at(v, r, k)
            }),
    decreases nrows,
{
    if nrows > 0 {
        lemma_rows_tails_pointwise(cur, v, nrows - 1, from);
        let first = rows_tails(cur, nrows - 1, from);
        lemma_apply_concat(v, first, row_tail(cur, nrows - 1, from, cur.width as int));
        lemma_row_tail_pointwise(cur, apply_ops(v, first), nrows - 1, from, cur.width as int);
    }
}

proof fn lemma_row_cells_pointwise(cur: ScreenView, v: ScreenView, row: int, n: int)
    requires
        wf_view(cur),
        wf_view(v),
        cur.width == v.width,
        cur.height == v.height,
        0 <= row < v.height,
        0 <= n <= v.width,
    ensures
        wf_view(apply_ops(v, row_cells(cur, row, n))),
        apply_ops(v, row_cells(cur, row, n)).width == v.width,
        apply_ops(v, row_cells(cur, row, n)).height == v.height,
        forall|r: int, k: int|
            #![trigger cell_at(apply_ops(v, row_cells(cur, row, n)), r, k)]
            in_bounds(v, r, k) ==> cell_at(apply_ops(v, row_cells(cur, row, n)), r, k) == (if r == row && k < n {
                cell_at(cur, r, k)
            } else {
                cell_at(v, r, k)
            }),
    decreases n,
{
    if n > 0 {
        lemma_row_cells_pointwise(cur, v, row, n - 1);
        let rest = row_cells(cur, row, n - 1);
        assert(row_cells(cur, row, n).drop_last() =~= rest);
        lemma_put_pointwise(apply_ops(v, rest), row, n - 1, cell_at(cur, row, n - 1));
    }
}

proof fn lemma_rows_cells_pointwise(cur: ScreenView, v: ScreenView, from: int, to: int)
    requires
        wf_view(cur),
        wf_view(v),
        cur.width == v.width,
        cur.height == v.height,
        0 <= from,
        to <= v.height,
    ensures
        wf_view(apply_ops(v, rows_cells(cur, from, to))),
        apply_ops(v, rows_cells(cur, from, to)).width == v.width,
        apply_ops(v, rows_cells(cur, from, to)).height == v.height,
        forall|r: int, k: int|
            #![trigger cell_at(apply_ops(v, rows_cells(cur, from, to)), r, k)]
            in_bounds(v, r, k) ==> cell_at(apply_ops(v, rows_cells(cur, from, to)), r, k) == (if from <= r < to {
                cell_at(cur, r, k)
            } else {
                cell_at(v, r, k)
            }),
    decreases to - from,
{
    if to > from {
        lemma_rows_cells_pointwise(cur, v, from, to - 1);
        let first = rows_cells(cur, from, to - 1);
        lemma_apply_concat(v, first, row_cells(cur, to - 1, cur.width as int));
        lemma_row_cells_pointwise(cur, apply_ops(v, first), to - 1, cur.width as int);
    }
}

/// The diff brings any terminal of the current frame's size that still
/// shows the previous frame where both frames overlap (the previous frame
/// itself, or the terminal just after a resize) to the current frame.
pub proof fn lemma_diff_applies_resized(prev: ScreenView, cur: ScreenView, t: ScreenView)
    requires
        wf_view(prev),
        wf_view(cur),
        wf_view(t),
        t.width == cur.width,
        t.height == cur.height,
        forall|r: int, k: int|
            0 <= r < prev.height && 0 <= k < prev.width && #[trigger] in_bounds(t, r, k) ==> cell_at(t, r, k) == cell_at(prev, r, k),
    ensures
        apply_ops(t, screen_diff(prev, cur)) == cur,
{
    let mh = min_int(prev.height as int, cur.height as int);
    let mw = min_int(prev.width as int, cur.width as int);
    let ov = overlap_changes(prev, cur, mh, mw);
    let tl = rows_tails(cur, mh, prev.width as int);
    let rc = rows_cells(cur, prev.height as int, cur.height as int);
    assert(screen_diff(prev, cur) == ov + tl + rc);
    lemma_apply_concat(t, ov + tl, rc);
    lemma_apply_concat(t, ov, tl);
    lemma_overlap_pointwise(prev, cur, t, mh, mw);
    let t1 = apply_ops(t, ov);
    lemma_rows_tails_pointwise(cur, t1, mh, prev.width as int);
    let t2 = apply_ops(t1, tl);
    lemma_rows_cells_pointwise(cur, t2, prev.height as int, cur.height as int);
    let t3 = apply_ops(t2, rc);
    assert forall|r: int, k: int| #![trigger cell_at(t3, r, k)] in_bounds(t3, r, k) implies cell_at(t3, r, k) == cell_at(cur, r, k) by {
        assert(in_bounds(t, r, k));
        assert(cell_at(t2, r, k) == cell_at(apply_ops(t1, tl), r, k));
        assert(cell_at(t1, r, k) == cell_at(apply_ops(t, ov), r, k));
    }
    lemma_view_ext(t3, cur);
}

/// Applying the diff of two equally sized screens to the first one yields
/// the second: the operations bring the previous frame to the current one.
pub proof fn lemma_diff_applies(prev: ScreenView, cur: ScreenView)
    requires
        wf_view(prev),
        wf_view(cur),
        prev.width == cur.width,
        prev.height == cur.height,
    ensures
        apply_ops(prev, screen_diff(prev, cur)) == cur,
{
    lemma_diff_applies_resized(prev, cur, prev);
}

proof fn lemma_row_changes_same(v: ScreenView, row: int, n: int)
    ensures
        row_changes(v, v, row, n) == Seq::<DiffOp>::empty(),
    decreases n,
{
    if n > 0 {
        lemma_row_changes_same(v, row, n - 1);
    }
}

proof fn lemma_overlap_same(v: ScreenView, nrows: int, ncols: int)
    ensures
        overlap_changes(v, v, nrows, ncols) == Seq::<DiffOp>::empty(),
    decreases nrows,
{
    if nrows > 0 {
        lemma_overlap_same(v, nrows - 1, ncols);
        lemma_row_changes_same(v, nrows - 1, ncols);
        assert(Seq::<DiffOp>::empty() + Seq::<DiffOp>::empty() =~= Seq::<DiffOp>::empty());
    }
}

proof fn lemma_rows_tails_empty(v: ScreenView, nrows: int)
    ensures
        rows_tails(v, nrows, v.width as int) == Seq::<DiffOp>::empty(),
    decreases nrows,
{
    if nrows > 0 {
        lemma_rows_tails_empty(v, nrows - 1);
        assert(row_tail(v, nrows - 1, v.width as int, v.width as int) =~= Seq::<DiffOp>::empty());
        assert(Seq::<DiffOp>::empty() + Seq::<DiffOp>::empty() =~= Seq::<DiffOp>::empty());
    }
}

/// A frame compared with itself needs no operation.
pub proof fn lemma_diff_same(v: ScreenView)
    ensures
        screen_diff(v, v) == Seq::<DiffOp>::empty(),
{
    lemma_overlap_same(v, v.height as int, v.width as int);
    lemma_rows_tails_empty(v, v.height as int);
    assert(rows_cells(v, v.height as int, v.height as int) =~= Seq::<DiffOp>::empty());
    assert(screen_diff(v, v) =~= Seq::<DiffOp>::empty());
}

/// The row of the cell an operation sets.
pub open spec fn op_row(op: DiffOp) -> int {
    match op {
        DiffOp::SetCell { row, .. } => row as int,
    }
}

/// The column of the cell an operation sets.
pub open spec fn op_col(op: DiffOp) -> int {
    match op {
        DiffOp::SetCell { col, .. } => col as int,
    }
}

/// The value an operation sets.
pub open spec fn op_cell(op: DiffOp) -> Cell {
    match op {
        DiffOp::SetCell { cell, .. } => cell,
    }
}

/// Whether `(r, k)` lies in both frames and holds the same cell in both.
pub open spec fn unchanged_at(prev: ScreenView, cur: ScreenView, r: int, k: int) -> bool {
    0 <= r < prev.height && 0 <= k < prev.width && cell_at(prev, r, k) == cell_at(cur, r, k)
}

/// Whether an operation sets a cell of `cur` to its value in `cur`.
pub open spec fn sets_cur(op: DiffOp, cur: ScreenView) -> bool {
    in_bounds(cur, op_row(op), op_col(op)) && op_cell(op) == cell_at(cur, op_row(op), op_col(op))
}

spec fn op_key(op: DiffOp) -> int {
    op_row(op) * 65536 + op_col(op)
}

proof fn lemma_row_changes_cells(prev: ScreenView, cur: ScreenView, row: int, n: int)
    requires
        wf_view(prev),
        wf_view(cur),
        0 <= row < cur.height,
        row < prev.height,
        0 <= n <= cur.width,
        n <= prev.width,
    ensures
        forall|i: int| 0 <= i < row_changes(prev, cur, row, n).len() ==> {
            let op = #[trigger] row_changes(prev, cur, row, n)[i];
            &&& sets_cur(op, cur)
            &&& op_row(op) == row
            &&& 0 <= op_col(op) < n
            &&& !unchanged_at(prev, cur, row, op_col(op))
        },
        forall|i: int, j: int| 0 <= i < j < row_changes(prev, cur, row, n).len() ==>
            op_col(#[trigger] row_changes(prev, cur, row, n)[i]) < op_col(#[trigger] row_changes(prev, cur, row, n)[j]),
        forall|c: int| 0 <= c < n && !unchanged_at(prev, cur, row, c) ==> exists|i: int|
            0 <= i < row_changes(prev, cur, row, n).len() && op_col(#[trigger] row_changes(prev, cur, row, n)[i]) == c,
    decreases n,
{
    if n > 0 {
        lemma_row_changes_cells(prev, cur, row, n - 1);
        let a = row_changes(prev, cur, row, n - 1);
        let ops = row_changes(prev, cur, row, n);
        if cell_at(prev, row, n - 1) != cell_at(cur, row, n - 1) {
            assert(ops == a.push(DiffOp::SetCell { row: row as u16, col: (n - 1) as u16, cell: cell_at(cur, row, n - 1) }));
            assert forall|c: int| 0 <= c < n && !unchanged_at(prev, cur, row, c) implies exists|i: int|
                0 <= i < ops.len() && op_col(#[trigger] ops[i]) == c by {
                if c < n - 1 {
                    let i = choose|i: int| 0 <= i < a.len() && op_col(#[trigger] a[i]) == c;
                    assert(ops[i] == a[i]);
                } else {
                    assert(op_col(ops[a.len() as int]) == c);
                }
            }
        } else {
            assert forall|c: int| 0 <= c < n && !unchanged_at(prev, cur, row, c) implies exists|i: int|
                0 <= i < ops.len() && op_col(#[trigger] ops[i]) == c by {
                assert(c < n - 1);
            }
        }
    }
}

proof fn lemma_overlap_cells(prev: ScreenView, cur: ScreenView, nrows: int, ncols: int)
    requires
        wf_view(prev),
        wf_view(cur),
        0 <= nrows <= cur.height,
        nrows <= prev.height,
        0 <= ncols <= cur.width,
        ncols <= prev.width,
    ensures
        forall|i: int| 0 <= i < overlap_changes(prev, cur, nrows, ncols).len() ==> {
            let op = #[trigger] overlap_changes(prev, cur, nrows, ncols)[i];
            &&& sets_cur(op, cur)
            &&& 0 <= op_row(op) < nrows
            &&& 0 <= op_col(op) < ncols
            &&& !unchanged_at(prev, cur, op_row(op), op_col(op))
        },
        forall|i: int, j: int| 0 <= i < j < overlap_changes(prev, cur, nrows, ncols).len() ==>
            op_key(#[trigger] overlap_changes(prev, cur, nrows, ncols)[i]) < op_key(#[trigger] overlap_changes(prev, cur, nrows, ncols)[j]),
        forall|r: int, c: int| 0 <= r < nrows && 0 <= c < ncols && !unchanged_at(prev, cur, r, c) ==> exists|i: int|
            0 <= i < overlap_changes(prev, cur, nrows, ncols).len()
                && op_row(#[trigger] overlap_changes(prev, cur, nrows, ncols)[i]) == r
                && op_col(overlap_changes(prev, cur, nrows, ncols)[i]) == c,
    decreases nrows,
{
    if nrows > 0 {
        lemma_overlap_cells(prev, cur, nrows - 1, ncols);
        lemma_row_changes_cells(prev, cur, nrows - 1, ncols);
        let a = overlap_changes(prev, cur, nrows - 1, ncols);
        let b = row_changes(prev, cur, nrows - 1, ncols);
        let ops = overlap_changes(prev, cur, nrows, ncols);
        assert(ops == a + b);
        assert forall|i: int| 0 <= i < ops.len() implies {
            let op = #[trigger] ops[i];
            &&& sets_cur(op, cur)
            &&& 0 <= op_row(op) < nrows
            &&& 0 <= op_col(op) < ncols
            &&& !unchanged_at(prev, cur, op_row(op), op_col(op))
        } by {
            if i < a.len() {
                assert(ops[i] == a[i]);
            } else {
                assert(ops[i] == b[i - a.len()]);
            }
        }
        assert forall|i: int, j: int| 0 <= i < j < ops.len() implies op_key(#[trigger] ops[i]) < op_key(#[trigger] ops[j]) by {
            if j < a.len() {
                assert(ops[i] == a[i] && ops[j] == a[j]);
            } else if i >= a.len() {
                assert(ops[i] == b[i - a.len()] && ops[j] == b[j - a.len()]);
            } else {
                assert(ops[i] == a[i] && ops[j] == b[j - a.len()]);
                assert(op_row(a[i]) < nrows - 1);
                assert(op_row(b[j - a.len()]) == nrows - 1);
            }
        }
        assert forall|r: int, c: int| 0 <= r < nrows && 0 <= c < ncols && !unchanged_at(prev, cur, r, c) implies exists|i: int|
            0 <= i < ops.len() && op_row(#[trigger] ops[i]) == r && op_col(ops[i]) == c by {
            if r < nrows - 1 {
                let i = choose|i: int| 0 <= i < a.len() && op_row(#[trigger] a[i]) == r && op_col(a[i]) == c;
                assert(ops[i] == a[i]);
            } else {
                let i = choose|i: int| 0 <= i < b.len() && op_col(#[trigger] b[i]) == c;
                assert(ops[a.len() + i] == b[i]);
                assert(op_row(b[i]) == r);
            }
        }
    }
}

proof fn lemma_row_tail_cells(cur: ScreenView, row: int, from: int, to: int)
    requires
        wf_view(cur),
        0 <= row < cur.height,
        0 <= from,
        to <= cur.width,
    ensures
        forall|i: int| 0 <= i < row_tail(cur, row, from, to).len() ==> {
            let op = #[trigger] row_tail(cur, row, from, to)[i];
            &&& sets_cur(op, cur)
            &&& op_row(op) == row
            &&& from <= op_col(op) < to
        },
        forall|i: int, j: int| 0 <= i < j < row_tail(cur, row, from, to).len() ==>
            op_col(#[trigger] row_tail(cur, row, from, to)[i]) < op_col(#[trigger] row_tail(cur, row, from, to)[j]),
        forall|c: int| from <= c < to && #[trigger] in_bounds(cur, row, c) ==> exists|i: int|
            0 <= i < row_tail(cur, row, from, to).len() && op_col(#[trigger] row_tail(cur, row, from, to)[i]) == c,
    decreases to - from,
{
    if to > from {
        lemma_row_tail_cells(cur, row, from, to - 1);
        let a = row_tail(cur, row, from, to - 1);
        let ops = row_tail(cur, row, from, to);
        assert(ops == a.push(DiffOp::SetCell { row: row as u16, col: (to - 1) as u16, cell: cell_at(cur, row, to - 1) }));
        assert forall|c: int| from <= c < to && #[trigger] in_bounds(cur, row, c) implies exists|i: int| 0 <= i < ops.len() && op_col(#[trigger] ops[i]) == c by {
            if c < to - 1 {
                let i = choose|i: int| 0 <= i < a.len() && op_col(#[trigger] a[i]) == c;
                assert(ops[i] == a[i]);
            } else {
                assert(op_col(ops[a.len() as int]) == c);
            }
        }
    }
}

proof fn lemma_rows_tails_cells(cur: ScreenView, nrows: int, from: int)
    requires
        wf_view(cur),
        0 <= nrows <= cur.height,
        0 <= from,
    ensures
        forall|i: int| 0 <= i < rows_tails(cur, nrows, from).len() ==> {
            let op = #[trigger] rows_tails(cur, nrows, from)[i];
            &&& sets_cur(op, cur)
            &&& 0 <= op_row(op) < nrows
            &&& from <= op_col(op)
        },
        forall|i: int, j: int| 0 <= i < j < rows_tails(cur, nrows, from).len() ==>
            op_key(#[trigger] rows_tails(cur, nrows, from)[i]) < op_key(#[trigger] rows_tails(cur, nrows, from)[j]),
        forall|r: int, c: int| 0 <= r < nrows && from <= c && #[trigger] in_bounds(cur, r, c) ==> exists|i: int|
            0 <= i < rows_tails(cur, nrows, from).len() && op_row(#[trigger] rows_tails(cur, nrows, from)[i]) == r
                && op_col(rows_tails(cur, nrows, from)[i]) == c,
    decreases nrows,
{
    if nrows > 0 {
        lemma_rows_tails_cells(cur, nrows - 1, from);
        lemma_row_tail_cells(cur, nrows - 1, from, cur.width as int);
        let a = rows_tails(cur, nrows - 1, from);
        let b = row_tail(cur, nrows - 1, from, cur.width as int);
        let ops = rows_tails(cur, nrows, from);
        assert(ops == a + b);
        assert forall|i: int| 0 <= i < ops.len() implies {
            let op = #[trigger] ops[i];
            &&& sets_cur(op, cur)
            &&& 0 <= op_row(op) < nrows
            &&& from <= op_col(op)
        } by {
            if i < a.len() {
                assert(ops[i] == a[i]);
            } else {
                assert(ops[i] == b[i - a.len()]);
            }
        }
        assert forall|i: int, j: int| 0 <= i < j < ops.len() implies op_key(#[trigger] ops[i]) < op_key(#[trigger] ops[j]) by {
            if j < a.len() {
                assert(ops[i] == a[i] && ops[j] == a[j]);
            } else if i >= a.len() {
                assert(ops[i] == b[i - a.len()] && ops[j] == b[j - a.len()]);
            } else {
                assert(ops[i] == a[i] && ops[j] == b[j - a.len()]);
                assert(op_col(a[i]) < cur.width);
                assert(op_row(a[i]) < nrows - 1);
                assert(op_row(b[j - a.len()]) == nrows - 1);
            }
        }
        assert forall|r: int, c: int| 0 <= r < nrows && from <= c && #[trigger] in_bounds(cur, r, c) implies exists|i: int|
            0 <= i < ops.len() && op_row(#[trigger] ops[i]) == r && op_col(ops[i]) == c by {
            if r < nrows - 1 {
                let i = choose|i: int| 0 <= i < a.len() && op_row(#[trigger] a[i]) == r && op_col(a[i]) == c;
                assert(ops[i] == a[i]);
            } else {
                let i = choose|i: int| 0 <= i < b.len() && op_col(#[trigger] b[i]) == c;
                assert(ops[a.len() + i] == b[i]);
            }
        }
    }
}

proof fn lemma_rows_cells_cells(cur: ScreenView, from: int, to: int)
    requires
        wf_view(cur),
        0 <= from,
        to <= cur.height,
    ensures
        forall|i: int| 0 <= i < rows_cells(cur, from, to).len() ==> {
            let op = #[trigger] rows_cells(cur, from, to)[i];
            &&& sets_cur(op, cur)
            &&& from <= op_row(op) < to
        },
        forall|i: int, j: int| 0 <= i < j < rows_cells(cur, from, to).len() ==>
            op_key(#[trigger] rows_cells(cur, from, to)[i]) < op_key(#[trigger] rows_cells(cur, from, to)[j]),
        forall|r: int, c: int| from <= r < to && #[trigger] in_bounds(cur, r, c) ==> exists|i: int|
            0 <= i < rows_cells(cur, from, to).len() && op_row(#[trigger] rows_cells(cur, from, to)[i]) == r
                && op_col(rows_cells(cur, from, to)[i]) == c,
    decreases to - from,
{
    if to > from {
        lemma_rows_cells_cells(cur, from, to - 1);
        lemma_row_cells_as_tail(cur, to - 1, cur.width as int);
        lemma_row_tail_cells(cur, to - 1, 0, cur.width as int);
        let a = rows_cells(cur, from, to - 1);
        let b = row_cells(cur, to - 1, cur.width as int);
        let ops = rows_cells(cur, from, to);
        assert(ops == a + b);
        assert forall|i: int| 0 <= i < ops.len() implies {
            let op = #[trigger] ops[i];
            &&& sets_cur(op, cur)
            &&& from <= op_row(op) < to
        } by {
            if i < a.len() {
                assert(ops[i] == a[i]);
            } else {
                assert(ops[i] == b[i - a.len()]);
            }
        }
        assert forall|i: int, j: int| 0 <= i < j < ops.len() implies op_key(#[trigger] ops[i]) < op_key(#[trigger] ops[j]) by {
            if j < a.len() {
                assert(ops[i] == a[i] && ops[j] == a[j]);
            } else if i >= a.len() {
                assert(ops[i] == b[i - a.len()] && ops[j] == b[j - a.len()]);
            } else {
                assert(ops[i] == a[i] && ops[j] == b[j - a.len()]);
                assert(op_col(a[i]) < cur.width);
                assert(op_row(a[i]) < to - 1);
                assert(op_row(b[j - a.len()]) == to - 1);
            }
        }
        assert forall|r: int, c: int| from <= r < to && #[trigger] in_bounds(cur, r, c) implies exists|i: int|
            0 <= i < ops.len() && op_row(#[trigger] ops[i]) == r && op_col(ops[i]) == c by {
            if r < to - 1 {
                let i = choose|i: int| 0 <= i < a.len() && op_row(#[trigger] a[i]) == r && op_col(a[i]) == c;
                assert(ops[i] == a[i]);
            } else {
                let i = choose|i: int| 0 <= i < b.len() && op_col(#[trigger] b[i]) == c;
                assert(ops[a.len() + i] == b[i]);
            }
        }
    }
}

proof fn lemma_row_cells_as_tail(cur: ScreenView, row: int, n: int)
    ensures
        row_cells(cur, row, n) == row_tail(cur, row, 0, n),
    decreases n,
{
    if n > 0 {
        lemma_row_cells_as_tail(cur, row, n - 1);
    } else {
        assert(row_cells(cur, row, n) =~= row_tail(cur, row, 0, n));
    }
}

/// The operations of a diff, cell by cell: each sets a cell of the current
/// frame to its value there, and only where the frames differ (a cell the
/// previous frame lacks counts as differing); every such cell gets an
/// operation; and no cell gets two.
pub proof fn lemma_diff_cells(prev: ScreenView, cur: ScreenView)
    requires
        wf_view(prev),
        wf_view(cur),
    ensures
        forall|i: int| 0 <= i < screen_diff(prev, cur).len() ==> {
            let op = #[trigger] screen_diff(prev, cur)[i];
            sets_cur(op, cur) && !unchanged_at(prev, cur, op_row(op), op_col(op))
        },
        forall|r: int, c: int| in_bounds(cur, r, c) && !unchanged_at(prev, cur, r, c) ==> exists|i: int|
            0 <= i < screen_diff(prev, cur).len() && op_row(#[trigger] screen_diff(prev, cur)[i]) == r
                && op_col(screen_diff(prev, cur)[i]) == c,
        forall|i: int, j: int| 0 <= i < j < screen_diff(prev, cur).len() ==>
            op_row(#[trigger] screen_diff(prev, cur)[i]) != op_row(#[trigger] screen_diff(prev, cur)[j])
                || op_col(screen_diff(prev, cur)[i]) != op_col(screen_diff(prev, cur)[j]),
{
    let mh = min_int(prev.height as int, cur.height as int);
    let mw = min_int(prev.width as int, cur.width as int);
    let a = overlap_changes(prev, cur, mh, mw);
    let b = rows_tails(cur, mh, prev.width as int);
    let c = rows_cells(cur, prev.height as int, cur.height as int);
    lemma_overlap_cells(prev, cur, mh, mw);
    lemma_rows_tails_cells(cur, mh, prev.width as int);
    lemma_rows_cells_cells(cur, prev.height as int, cur.height as int);
    let ops = screen_diff(prev, cur);
    assert(ops == a + b + c);
    let la = a.len() as int;
    let lb = b.len() as int;
    assert forall|i: int| 0 <= i < ops.len() implies {
        let op = #[trigger] ops[i];
        sets_cur(op, cur) && !unchanged_at(prev, cur, op_row(op), op_col(op))
    } by {
        if i < la {
            assert(ops[i] == a[i]);
        } else if i < la + lb {
            assert(ops[i] == b[i - la]);
        } else {
            assert(ops[i] == c[i - la - lb]);
        }
    }
    assert forall|r: int, k: int| in_bounds(cur, r, k) && !unchanged_at(prev, cur, r, k) implies exists|i: int|
        0 <= i < ops.len() && op_row(#[trigger] ops[i]) == r && op_col(ops[i]) == k by {
        if r < mh && k < mw {
            let i = choose|i: int| 0 <= i < a.len() && op_row(#[trigger] a[i]) == r && op_col(a[i]) == k;
            assert(ops[i] == a[i]);
        } else if r < mh {
            let i = choose|i: int| 0 <= i < b.len() && op_row(#[trigger] b[i]) == r && op_col(b[i]) == k;
            assert(ops[la + i] == b[i]);
        } else {
            let i = choose|i: int| 0 <= i < c.len() && op_row(#[trigger] c[i]) == r && op_col(c[i]) == k;
            assert(ops[la + lb + i] == c[i]);
        }
    }
    assert forall|i: int, j: int| 0 <= i < j < ops.len() implies op_row(#[trigger] ops[i]) != op_row(#[trigger] ops[j])
        || op_col(ops[i]) != op_col(ops[j]) by {
        if j < la {
            assert(ops[i] == a[i] && ops[j] == a[j]);
        } else if i >= la + lb {
            assert(ops[i] == c[i - la - lb] && ops[j] == c[j - la - lb]);
        } else if i >= la && j < la + lb {
            assert(ops[i] == b[i - la] && ops[j] == b[j - la]);
        } else if i < la && j < la + lb {
            assert(ops[i] == a[i] && ops[j] == b[j - la]);
        } else if i < la {
            assert(ops[i] == a[i] && ops[j] == c[j - la - lb]);
        } else {
            assert(ops[i] == b[i - la] && ops[j] == c[j - la - lb]);
        }
    }
}

/// A double-buffered screen of cells.
pub struct Screen {
    width: u16,
    height: u16,
    cells: Vec<Cell>,
}

impl View for Screen {
    type V = ScreenView;

    closed spec fn view(&self) -> ScreenView {
        ScreenView { width: self.width as nat, height: self.height as nat, cells: self.cells@ }
    }
}

impl Screen {
    /// The cell sequence matches the screen size.
    pub open spec fn wf(&self) -> bool {
        wf_view(self@)
    }

    fn blank_cells(width: u16, height: u16) -> (cells: Vec<Cell>)
        ensures
            cells@ == Seq::new(width as nat * height as nat, |i: int| blank_cell()),
    {
        proof {
            lemma_area_fits(width as int, height as int);
        }
        let n = (width as usize) * (height as usize);
        let mut cells: Vec<Cell> = Vec::new();
        for i in 0..n
            invariant
                cells@.len() == i,
                forall|k: int| 0 <= k < i ==> cells@[k] == blank_cell(),
        {
            cells.push(Cell::blank());
        }
        proof {
            assert(cells@ =~= Seq::new(width as nat * height as nat, |i: int| blank_cell()));
        }
        cells
    }

    /// A screen of the given size, filled with blank cells.
    pub fn new(width: u16, height: u16) -> (s: Self)
        ensures
            s.wf(),
            s@ == blank_view(width as nat, height as nat),
    {
        let cells = Self::blank_cells(width, height);
        Screen { width, height, cells }
    }

    /// Resize the screen, clearing all content.
    pub fn resize(&mut self, width: u16, height: u16)
        ensures
            final(self).wf(),
            final(self)@ == blank_view(width as nat, height as nat),
    {
        self.width = width;
        self.height = height;
        self.cells = Self::blank_cells(width, height);
    }

    /// Clear the entire screen to blank cells.
    pub fn clear(&mut self)
        requires
            old(self).wf(),
        ensures
            final(self).wf(),
            final(self)@ == blank_view(old(self)@.width, old(self)@.height),
    {
        let n = self.cells.len();
        let mut i: usize = 0;
        while i < n
            invariant
                n == self.cells@.len(),
                i <= n,
                self.width == old(self).width,
                self.height == old(self).height,
                forall|k: int| 0 <= k < i ==> self.cells@[k] == blank_cell(),
            decreases n - i,
        {
            self.cells.set(i, Cell::blank());
            i += 1;
        }
        proof {
            assert(self.cells@ =~= Seq::new(old(self)@.width * old(self)@.height, |i: int| blank_cell()));
        }
    }

    /// The screen width in columns.
    pub fn width(&self) -> (w: u16)
        ensures
            w == self@.width,
    {
        self.width
    }

    /// The screen height in rows.
    pub fn height(&self) -> (h: u16)
        ensures
            h == self@.height,
    {
        self.height
    }

    fn index_of(&self, row: u16, col: u16) -> (i: usize)
        requires
            self.wf(),
            in_bounds(self@, row as int, col as int),
        ensures
            i == idx(self@, row as int, col as int),
            i < self.cells@.len(),
    {
        proof {
            lemma_idx(self.width as int, self.height as int, row as int, col as int);
            lemma_area_fits(self.width as int, self.height as int);
        }
        (row as usize) * (self.width as usize) + (col as usize)
    }

    /// The cell at the given position, or `None` if out of bounds.
    pub fn get(&self, row: u16, col: u16) -> (r: Option<&Cell>)
        requires
            self.wf(),
        ensures
            r.is_some() == in_bounds(self@, row as int, col as int),
            r matches Some(c) ==> *c == cell_at(self@, row as int, col as int),
    {
        if row >= self.height || col >= self.width {
            return None;
        }
        let i = self.index_of(row, col);
        Some(&self.cells[i])
    }

    /// A mutable reference to the cell at the given position, or `None` if
    /// out of bounds. Writing through it changes exactly that cell.
    pub fn get_mut(&mut self, row: u16, col: u16) -> (r: Option<&mut Cell>)
        requires
            old(self).wf(),
        ensures
            final(self).wf(),
            r.is_some() == in_bounds(old(self)@, row as int, col as int),
            r.is_none() ==> final(self)@ == old(self)@,
            r.is_some() ==> *r.unwrap() == cell_at(old(self)@, row as int, col as int),
            r.is_some() ==> final(self)@ == put(old(self)@, row as int, col as int, *final(r.unwrap())),
    {
        if row >= self.height || col >= self.width {
            return None;
        }
        let i = self.index_of(row, col);
        Some(&mut self.cells[i])
    }

    /// Set a cell at the given position. Does nothing if out of bounds.
    pub fn set_cell(&mut self, row: u16, col: u16, cell: Cell)
        requires
            old(self).wf(),
        ensures
            final(self)@.width == old(self)@.width,
            final(self)@.height == old(self)@.height,
            final(self).wf(),
            final(self)@ == put(old(self)@, row as int, col as int, cell),
            same_outside_rows(old(self)@, final(self)@, row as int, row + 1),
    {
        proof {
            lemma_put_rows(self@, row as int, col as int, cell);
        }
        if row >= self.height || col >= self.width {
            return;
        }
        let i = self.index_of(row, col);
        self.cells.set(i, cell);
    }

    /// Fill a rectangular area with the given cell (clipped to the screen).
    pub fn fill_rect(&mut self, rect: Rect, cell: Cell)
        requires
            old(self).wf(),
            rect.x + rect.width <= u16::MAX,
            rect.y + rect.height <= u16::MAX,
        ensures
            final(self)@.width == old(self)@.width,
            final(self)@.height == old(self)@.height,
            final(self).wf(),
            forall|r: int, k: int|
                #![trigger cell_at(final(self)@, r, k)]
                in_bounds(old(self)@, r, k) ==> cell_at(final(self)@, r, k) == (if in_rect(rect, r, k) {
                    cell
                } else {
                    cell_at(old(self)@, r, k)
                }),
            same_outside_rows(old(self)@, final(self)@, rect.y as int, rect.y + rect.height),
    {
        let ghost v0 = self@;
        let row_end = rect.y + rect.height;
        let col_end = rect.x + rect.width;
        let mut row = rect.y;
        while row < row_end
            invariant
                self.wf(),
                wf_view(v0),
                rect.y <= row <= row_end,
                row_end == rect.y + rect.height,
                col_end == rect.x + rect.width,
                self@.width == v0.width,
                self@.height == v0.height,
                forall|r: int, k: int|
                    #![trigger cell_at(self@, r, k)]
                    in_bounds(v0, r, k) ==> cell_at(self@, r, k) == (if in_rect(rect, r, k) && r < row {
                        cell
                    } else {
                        cell_at(v0, r, k)
                    }),
            decreases row_end - row,
        {
            let mut col = rect.x;
            while col < col_end
                invariant
                    self.wf(),
                    wf_view(v0),
                    rect.y <= row < row_end,
                    rect.x <= col <= col_end,
                    row_end == rect.y + rect.height,
                    col_end == rect.x + rect.width,
                    self@.width == v0.width,
                    self@.height == v0.height,
                    forall|r: int, k: int|
                        #![trigger cell_at(self@, r, k)]
                        in_bounds(v0, r, k) ==> cell_at(self@, r, k) == (if in_rect(rect, r, k) && (r < row || (
                        r == row && k < col)) {
                            cell
                        } else {
                            cell_at(v0, r, k)
                        }),
                decreases col_end - col,
            {
                let ghost before = self@;
                if row < self.height && col < self.width {
                    self.set_cell(row, col, cell);
                    proof {
                        lemma_put_pointwise(before, row as int, col as int, cell);
                    }
                }
                col += 1;
            }
            row += 1;
        }
    }

    /// Draw a horizontal line of `ch` on `row` from `col_start` to `col_end`
    /// (inclusive, clipped to the screen).
    pub fn hline(&mut self, row: u16, col_start: u16, col_end: u16, ch: char, fg: Color, bg: Color)
        requires
            old(self).wf(),
        ensures
            final(self)@.width == old(self)@.width,
            final(self)@.height == old(self)@.height,
            final(self).wf(),
            forall|r: int, k: int|
                #![trigger cell_at(final(self)@, r, k)]
                in_bounds(old(self)@, r, k) ==> cell_at(final(self)@, r, k) == (if r == row && col_start <= k
                    <= col_end {
                    Cell { char: ch, fg, bg, style: plain_style(), wide: false }
                } else {
                    cell_at(old(self)@, r, k)
                }),
            same_outside_rows(old(self)@, final(self)@, row as int, row + 1),
    {
        let ghost v0 = self@;
        let ghost line = Cell { char: ch, fg, bg, style: plain_style(), wide: false };
        let last = if self.width > 0 { self.width - 1 } else { 0 };
        let end = if col_end < last { col_end } else { last };
        let mut col = col_start;
        let mut done = col_start > end;
        while !done
            invariant
                self.wf(),
                wf_view(v0),
                self@.width == v0.width,
                self@.height == v0.height,
                line == (Cell { char: ch, fg, bg, style: plain_style(), wide: false }),
                end <= col_end,
                end <= last,
                last == (if v0.width > 0 { v0.width - 1 } else { 0 }),
                end == (if col_end < last { col_end } else { last }),
                col_start <= col,
                !done ==> col <= end,
                forall|r: int, k: int|
                    #![trigger cell_at(self@, r, k)]
                    in_bounds(v0, r, k) ==> cell_at(self@, r, k) == (if r == row && col_start <= k && ((!done
                        && k < col) || (done && k <= end)) {
                        line
                    } else {
                        cell_at(v0, r, k)
                    }),
            decreases end - col + (if done { 0int } else { 1int }),
        {
            let ghost before = self@;
            let ghost old_done = done;
            let ghost old_col = col;
            let st = Style::new();
            proof {
                assert(st == plain_style());
            }
            let cell = Cell { char: ch, fg, bg, style: st, wide: false };
            proof {
                assert(cell == line);
            }
            self.set_cell(row, col, cell);
            proof {
                lemma_put_pointwise(before, row as int, col as int, line);
                assert(self@ == put(before, row as int, col as int, line));
            }
            if col == end {
                done = true;
            } else {
                col += 1;
            }
            proof {
                assert forall|r: int, k: int|
                    #![trigger cell_at(self@, r, k)]
                    in_bounds(v0, r, k) implies cell_at(self@, r, k) == (if r == row && col_start <= k && ((!done
                        && k < col) || (done && k <= end)) {
                        line
                    } else {
                        cell_at(v0, r, k)
                    }) by {
                    assert(cell_at(before, r, k) == (if r == row && col_start <= k && k < old_col {
                        line
                    } else {
                        cell_at(v0, r, k)
                    }));
                }
            }
        }
        proof {
            assert forall|r: int, k: int| #![trigger cell_at(self@, r, k)] in_bounds(v0, r, k) implies (k
                <= end <==> k <= col_end) by {
                assert(k <= last);
            }
        }
    }

    /// Draw a vertical line of `ch` in column `col` from `row_start` to
    /// `row_end` (inclusive, clipped to the screen).
    pub fn vline(&mut self, col: u16, row_start: u16, row_end: u16, ch: char, fg: Color, bg: Color)
        requires
            old(self).wf(),
        ensures
            final(self)@.width == old(self)@.width,
            final(self)@.height == old(self)@.height,
            final(self).wf(),
            forall|r: int, k: int|
                #![trigger cell_at(final(self)@, r, k)]
                in_bounds(old(self)@, r, k) ==> cell_at(final(self)@, r, k) == (if k == col && row_start <= r
                    <= row_end {
                    Cell { char: ch, fg, bg, style: plain_style(), wide: false }
                } else {
                    cell_at(old(self)@, r, k)
                }),
            same_outside_rows(old(self)@, final(self)@, row_start as int, row_end + 1),
    {
        let ghost v0 = self@;
        let ghost line = Cell { char: ch, fg, bg, style: plain_style(), wide: false };
        let last = if self.height > 0 { self.height - 1 } else { 0 };
        let end = if row_end < last { row_end } else { last };
        let mut row = row_start;
        let mut done = row_start > end;
        while !done
            invariant
                self.wf(),
                wf_view(v0),
                self@.width == v0.width,
                self@.height == v0.height,
                line == (Cell { char: ch, fg, bg, style: plain_style(), wide: false }),
                end <= row_end,
                end <= last,
                last == (if v0.height > 0 { v0.height - 1 } else { 0 }),
                end == (if row_end < last { row_end } else { last }),
                row_start <= row,
                !done ==> row <= end,
                forall|r: int, k: int|
                    #![trigger cell_at(self@, r, k)]
                    in_bounds(v0, r, k) ==> cell_at(self@, r, k) == (if k == col && row_start <= r && ((!done
                        && r < row) || (done && r <= end)) {
                        line
                    } else {
                        cell_at(v0, r, k)
                    }),
            decreases end - row + (if done { 0int } else { 1int }),
        {
            let ghost before = self@;
            self.set_cell(row, col, Cell { char: ch, fg, bg, style: Style::new(), wide: false });
            proof {
                lemma_put_pointwise(before, row as int, col as int, line);
            }
            if row == end {
                done = true;
            } else {
                row += 1;
            }
        }
        proof {
            assert forall|r: int, k: int| #![trigger cell_at(self@, r, k)] in_bounds(v0, r, k) implies (r
                <= end <==> r <= row_end) by {
                assert(r <= last);
            }
        }
    }

    /// Draw a box border around `rect`: corners `┌ ┐ └ ┘`, horizontal edges
    /// `─`, vertical edges `│`. Nothing is drawn when the rectangle is
    /// narrower or lower than 2.
    pub fn draw_box(&mut self, rect: Rect, fg: Color, bg: Color, style: Style)
        requires
            old(self).wf(),
            rect.x + rect.width <= u16::MAX,
            rect.y + rect.height <= u16::MAX,
        ensures
            final(self)@.width == old(self)@.width,
            final(self)@.height == old(self)@.height,
            final(self).wf(),
            forall|r: int, k: int|
                #![trigger cell_at(final(self)@, r, k)]
                in_bounds(old(self)@, r, k) ==> cell_at(final(self)@, r, k) == (match box_char(rect, r, k) {
                    Some(c) => Cell { char: c, fg, bg, style, wide: false },
                    None => cell_at(old(self)@, r, k),
                }),
            same_outside_rows(old(self)@, final(self)@, rect.y as int, rect.y + rect.height),
    {
        let x = rect.x;
        let y = rect.y;
        let w = rect.width;
        let h = rect.height;
        if w < 2 || h < 2 {
            return;
        }
        let ghost v0 = self@;
        let x2 = x + w - 1;
        let y2 = y + h - 1;
        let ghost b = |r: int, k: int| Cell { char: box_char(rect, r, k).unwrap(), fg, bg, style, wide: false };
        let mut before = Ghost(self@);
        self.set_cell(y, x, Cell { char: '┌', fg, bg, style, wide: false });
        proof { lemma_put_pointwise(before@, y as int, x as int, Cell { char: '┌', fg, bg, style, wide: false }); }
        before = Ghost(self@);
        self.set_cell(y, x2, Cell { char: '┐', fg, bg, style, wide: false });
        proof { lemma_put_pointwise(before@, y as int, x2 as int, Cell { char: '┐', fg, bg, style, wide: false }); }
        before = Ghost(self@);
        self.set_cell(y2, x, Cell { char: '└', fg, bg, style, wide: false });
        proof { lemma_put_pointwise(before@, y2 as int, x as int, Cell { char: '└', fg, bg, style, wide: false }); }
        before = Ghost(self@);
        self.set_cell(y2, x2, Cell { char: '┘', fg, bg, style, wide: false });
        proof { lemma_put_pointwise(before@, y2 as int, x2 as int, Cell { char: '┘', fg, bg, style, wide: false }); }
        proof {
            assert forall|r: int, k: int|
                #![trigger cell_at(self@, r, k)]
                in_bounds(v0, r, k) implies cell_at(self@, r, k) == (if (r == y || r == y2) && (k == x || k == x2) {
                    b(r, k)
                } else {
                    cell_at(v0, r, k)
                }) by {
            }
        }
        let mut col = x + 1;
        while col < x2
            invariant
                self.wf(),
                wf_view(v0),
                self@.width == v0.width,
                self@.height == v0.height,
                x == rect.x, y == rect.y, w == rect.width, h == rect.height,
                w >= 2, h >= 2,
                x2 == x + w - 1,
                y2 == y + h - 1,
                x + 1 <= col <= x2,
                b == (|r: int, k: int| Cell { char: box_char(rect, r, k).unwrap(), fg, bg, style, wide: false }),
                forall|r: int, k: int|
                    #![trigger cell_at(self@, r, k)]
                    in_bounds(v0, r, k) ==> cell_at(self@, r, k) == (if (r == y || r == y2) && ((k == x || k == x2)
                        || (x < k < col)) {
                        b(r, k)
                    } else {
                        cell_at(v0, r, k)
                    }),
            decreases x2 - col,
        {
            let ghost b0 = self@;
            self.set_cell(y, col, Cell { char: '─', fg, bg, style, wide: false });
            proof { lemma_put_pointwise(b0, y as int, col as int, Cell { char: '─', fg, bg, style, wide: false }); }
            let ghost b1 = self@;
            self.set_cell(y2, col, Cell { char: '─', fg, bg, style, wide: false });
            proof { lemma_put_pointwise(b1, y2 as int, col as int, Cell { char: '─', fg, bg, style, wide: false }); }
            col += 1;
        }
        let mut row = y + 1;
        while row < y2
            invariant
                self.wf(),
                wf_view(v0),
                self@.width == v0.width,
                self@.height == v0.height,
                x == rect.x, y == rect.y, w == rect.width, h == rect.height,
                w >= 2, h >= 2,
                x2 == x + w - 1,
                y2 == y + h - 1,
                y + 1 <= row <= y2,
                b == (|r: int, k: int| Cell { char: box_char(rect, r, k).unwrap(), fg, bg, style, wide: false }),
                forall|r: int, k: int|
                    #![trigger cell_at(self@, r, k)]
                    in_bounds(v0, r, k) ==> cell_at(self@, r, k) == (if ((r == y || r == y2) && x <= k <= x2) || ((
                    k == x || k == x2) && y < r < row) {
                        b(r, k)
                    } else {
                        cell_at(v0, r, k)
                    }),
            decreases y2 - row,
        {
            let ghost b0 = self@;
            self.set_cell(row, x, Cell { char: '│', fg, bg, style, wide: false });
            proof { lemma_put_pointwise(b0, row as int, x as int, Cell { char: '│', fg, bg, style, wide: false }); }
            let ghost b1 = self@;
            self.set_cell(row, x2, Cell { char: '│', fg, bg, style, wide: false });
            proof { lemma_put_pointwise(b1, row as int, x2 as int, Cell { char: '│', fg, bg, style, wide: false }); }
            row += 1;
        }
    }

    /// The operations that bring a terminal showing `previous` to this screen
    /// (see [`screen_diff`]).
    pub fn diff_from(&self, previous: &Screen) -> (ops: Vec<DiffOp>)
        requires
            self.wf(),
            previous.wf(),
        ensures
            ops@ == screen_diff(previous@, self@),
            previous@.width == self@.width && previous@.height == self@.height ==> apply_ops(previous@, ops@) == self@,
            forall|i: int| 0 <= i < ops@.len() ==> {
                let op = #[trigger] ops@[i];
                sets_cur(op, self@) && !unchanged_at(previous@, self@, op_row(op), op_col(op))
            },
            forall|r: int, c: int| in_bounds(self@, r, c) && !unchanged_at(previous@, self@, r, c) ==> exists|i: int|
                0 <= i < ops@.len() && op_row(#[trigger] ops@[i]) == r && op_col(ops@[i]) == c,
            forall|i: int, j: int| 0 <= i < j < ops@.len() ==>
                op_row(#[trigger] ops@[i]) != op_row(#[trigger] ops@[j]) || op_col(ops@[i]) != op_col(ops@[j]),
    {
        proof {
            if previous@.width == self@.width && previous@.height == self@.height {
                lemma_diff_applies(previous@, self@);
            }
            lemma_diff_cells(previous@, self@);
        }
        let ghost prev = previous@;
        let ghost cur = self@;
        let mut ops: Vec<DiffOp> = Vec::new();
        let max_row = if self.height <= previous.height { self.height } else { previous.height };
        let max_col = if self.width <= previous.width { self.width } else { previous.width };
        let mut row: u16 = 0;
        while row < max_row
            invariant
                self.wf(),
                previous.wf(),
                prev == previous@,
                cur == self@,
                max_row == min_int(prev.height as int, cur.height as int),
                max_col == min_int(prev.width as int, cur.width as int),
                row <= max_row,
                ops@ == overlap_changes(prev, cur, row as int, max_col as int),
            decreases max_row - row,
        {
            let mut col: u16 = 0;
            while col < max_col
                invariant
                    self.wf(),
                    previous.wf(),
                    prev == previous@,
                    cur == self@,
                    max_row == min_int(prev.height as int, cur.height as int),
                    max_col == min_int(prev.width as int, cur.width as int),
                    row < max_row,
                    col <= max_col,
                    ops@ == overlap_changes(prev, cur, row as int, max_col as int) + row_changes(prev, cur, row as int, col as int),
                decreases max_col - col,
            {
                let p = *previous.get(row, col).unwrap();
                let c = *self.get(row, col).unwrap();
                if p != c {
                    ops.push(DiffOp::SetCell { row, col, cell: c });
                }
                proof {
                    assert(ops@ =~= overlap_changes(prev, cur, row as int, max_col as int) + row_changes(prev, cur, row as int, col + 1));
                }
                col += 1;
            }
            proof {
                assert(ops@ =~= overlap_changes(prev, cur, row + 1, max_col as int));
            }
            row += 1;
        }
        let ghost ov = ops@;
        let mut row1: u16 = 0;
        proof {
            assert(ops@ =~= ov + rows_tails(cur, 0, prev.width as int));
        }
        while row1 < max_row
            invariant
                self.wf(),
                previous.wf(),
                prev == previous@,
                cur == self@,
                max_row == min_int(prev.height as int, cur.height as int),
                ov == overlap_changes(prev, cur, max_row as int, max_col as int),
                row1 <= max_row,
                ops@ == ov + rows_tails(cur, row1 as int, prev.width as int),
            decreases max_row - row1,
        {
            let mut col: u16 = previous.width;
            proof {
                assert(ops@ =~= ov + rows_tails(cur, row1 as int, prev.width as int) + row_tail(cur, row1 as int, prev.width as int, col as int));
            }
            while col < self.width
                invariant
                    self.wf(),
                    cur == self@,
                    prev == previous@,
                    row1 < max_row,
                    max_row == min_int(prev.height as int, cur.height as int),
                    previous.width <= col,
                    col > self.width ==> col == previous.width,
                    ops@ == ov + rows_tails(cur, row1 as int, prev.width as int) + row_tail(cur, row1 as int, prev.width as int, col as int),
                decreases self.width - col,
            {
                let c = *self.get(row1, col).unwrap();
                ops.push(DiffOp::SetCell { row: row1, col, cell: c });
                proof {
                    assert(ops@ =~= ov + rows_tails(cur, row1 as int, prev.width as int) + row_tail(cur, row1 as int, prev.width as int, col + 1));
                }
                col += 1;
            }
            proof {
                if col > self.width {
                    assert(row_tail(cur, row1 as int, prev.width as int, col as int) =~= Seq::<DiffOp>::empty());
                    assert(row_tail(cur, row1 as int, prev.width as int, cur.width as int) =~= Seq::<DiffOp>::empty());
                }
                assert(ops@ =~= ov + rows_tails(cur, row1 + 1, prev.width as int));
            }
            row1 += 1;
        }
        let ghost ot = ops@;
        let mut row2: u16 = previous.height;
        proof {
            assert(ops@ =~= ot + rows_cells(cur, prev.height as int, prev.height as int));
        }
        while row2 < self.height
            invariant
                self.wf(),
                previous.wf(),
                prev == previous@,
                cur == self@,
                max_row == min_int(prev.height as int, cur.height as int),
                max_col == min_int(prev.width as int, cur.width as int),
                previous.height <= row2,
                previous.height < self.height ==> row2 <= self.height,
                previous.height >= self.height ==> row2 == previous.height,
                ot == overlap_changes(prev, cur, max_row as int, max_col as int) + rows_tails(cur, max_row as int, prev.width as int),
                ops@ == ot + rows_cells(cur, prev.height as int, row2 as int),
            decreases self.height - row2,
        {
            let mut col: u16 = 0;
            while col < self.width
                invariant
                    self.wf(),
                    cur == self@,
                    previous.height <= row2 < self.height,
                    col <= self.width,
                    ops@ == ot + rows_cells(cur, prev.height as int, row2 as int) + row_cells(cur, row2 as int, col as int),
                decreases self.width - col,
            {
                let c = *self.get(row2, col).unwrap();
                ops.push(DiffOp::SetCell { row: row2, col, cell: c });
                proof {
                    assert(ops@ =~= ot + rows_cells(cur, prev.height as int, row2 as int) + row_cells(cur, row2 as int, col + 1));
                }
                col += 1;
            }
            proof {
                assert(ops@ =~= ot + rows_cells(cur, prev.height as int, row2 + 1));
            }
            row2 += 1;
        }
        proof {
            if prev.height >= cur.height {
                assert(rows_cells(cur, prev.height as int, row2 as int) =~= Seq::<DiffOp>::empty());
                assert(rows_cells(cur, prev.height as int, cur.height as int) =~= Seq::<DiffOp>::empty());
            }
        }
        ops
    }

    /// Merge a zero-width combining mark into the previous cell.
    ///
    /// Does nothing if `col` is at the start of the current rendering run
    /// or if `in_view` is false.
    fn merge_combining_mark(
        &mut self,
        row: u16,
        col: u16,
        start_col: u16,
        ch: char,
        fg: Color,
        bg: Color,
        style: Style,
        in_view: bool,
    )
        requires
            old(self).wf(),
        ensures
            final(self)@.width == old(self)@.width,
            final(self)@.height == old(self)@.height,
            final(self).wf(),
            final(self)@ == merge_mark(old(self)@, row as int, col as int, start_col as int, ch, fg, bg, style, in_view),
    {
        if !in_view || col <= start_col {
            return;
        }
        if let Some(prev) = self.get_mut(row, col - 1) {
            prev.char = ch;
            prev.fg = fg;
            prev.bg = bg;
            prev.style = style;
        }
    }

    /// Wrapped writing of `text` from `(start_row, start_col)` under `cfg`
    /// (see [`wrap_run`]); returns the screen row where the text ended.
    fn write_wrapped(
        &mut self,
        start_row: u16,
        start_col: u16,
        text: &str,
        fg: Color,
        bg: Color,
        style: Style,
        cfg: WrapConfig,
    ) -> (r: u16)
        requires
            old(self).wf(),
            start_row < u16::MAX,
            cfg.max_row < u16::MAX,
        ensures
            final(self)@.width == old(self)@.width,
            final(self)@.height == old(self)@.height,
            final(self).wf(),
            final(self)@ == wrap_run(cfg.view(), start_col as int, wrap_start(old(self)@, start_row as int, start_col as int), text@, fg, bg, style).v,
            r == wrap_run(cfg.view(), start_col as int, wrap_start(old(self)@, start_row as int, start_col as int), text@, fg, bg, style).screen_row,
    {
        let ghost cv = cfg.view();
        let ghost full = wrap_run(cv, start_col as int, wrap_start(old(self)@, start_row as int, start_col as int), text@, fg, bg, style);
        let ghost bound: int = if start_row >= cfg.max_row { start_row as int } else { cfg.max_row as int };
        let cs = chars_of(text);
        let n = cs.len();
        let mut i: usize = 0;
        let mut visual_row: usize = 0;
        let mut col: u32 = start_col as u32;
        let mut screen_row: u32 = start_row as u32;
        let mut stopped = false;
        proof {
            assert(cs@.skip(0) =~= cs@);
        }
        while i < n && !stopped
            invariant
                self.wf(),
                n == cs@.len(),
                cs@ == text@,
                i <= n,
                visual_row <= i,
                col <= 0xFFFF + 3,
                bound == (if start_row >= cfg.max_row { start_row as int } else { cfg.max_row as int }),
                bound < u16::MAX,
                screen_row <= bound || (screen_row == bound + 1 && stopped),
                self@.width == old(self)@.width,
                self@.height == old(self)@.height,
                cv == cfg.view(),
                full == wrap_run(cv, start_col as int, wrap_start(old(self)@, start_row as int, start_col as int), text@, fg, bg, style),
                wrap_run(
                    cv,
                    start_col as int,
                    WrapState { v: self@, visual_row: visual_row as int, col: col as int, screen_row: screen_row as int, stopped },
                    cs@.skip(i as int),
                    fg,
                    bg,
                    style,
                ) == full,
            decreases n - i,
        {
            let ch = cs[i];
            let w = width_or_one(ch);
            let ghost s0 = WrapState { v: self@, visual_row: visual_row as int, col: col as int, screen_row: screen_row as int, stopped };
            proof {
                assert(cs@.skip(i as int).drop_first() =~= cs@.skip(i + 1));
                assert(cs@.skip(i as int)[0] == ch);
            }
            if w == 0 {
                let in_view = if cfg.skip_rows > 0 {
                    visual_row >= cfg.skip_rows && screen_row <= cfg.max_row as u32
                } else if cfg.screen_bounded {
                    col < self.width as u32 && screen_row < self.height as u32
                } else {
                    screen_row <= cfg.max_row as u32
                };
                if col <= 0xFFFF {
                    self.merge_combining_mark(screen_row as u16, col as u16, start_col, ch, fg, bg, style, in_view);
                }
            } else if ch == '\n' {
                visual_row += 1;
                col = cfg.left_margin as u32;
                if cfg.skip_rows == 0 || visual_row > cfg.skip_rows {
                    screen_row += 1;
                }
                if screen_row > cfg.max_row as u32 {
                    stopped = true;
                }
            } else {
                let mut place = true;
                if col + w as u32 > cfg.wrap_col as u32 {
                    if cfg.no_wrap {
                        stopped = true;
                        place = false;
                    } else {
                        visual_row += 1;
                        col = cfg.left_margin as u32;
                        if cfg.skip_rows == 0 || visual_row > cfg.skip_rows {
                            screen_row += 1;
                        }
                        if screen_row > cfg.max_row as u32 || (cfg.screen_bounded && screen_row >= self.height as u32) {
                            stopped = true;
                            place = false;
                        }
                    }
                }
                if place {
                    let past_skip = cfg.skip_rows == 0 || visual_row >= cfg.skip_rows;
                    if past_skip && screen_row <= cfg.max_row as u32 {
                        if col < self.width as u32 {
                            self.set_cell(screen_row as u16, col as u16, Cell { char: ch, fg, bg, style, wide: false });
                        }
                        if w > 1 && col + 1 < self.width as u32 {
                            self.set_cell(screen_row as u16, (col + 1) as u16, Cell::wide_continuation(fg, bg, style));
                        }
                    }
                    col = col + w as u32;
                }
            }
            proof {
                assert(wrap_step(cv, start_col as int, s0, ch, fg, bg, style) == (WrapState {
                    v: self@,
                    visual_row: visual_row as int,
                    col: col as int,
                    screen_row: screen_row as int,
                    stopped,
                }));
            }
            i += 1;
        }
        proof {
            if i >= n {
                assert(cs@.skip(i as int).len() == 0);
            }
        }
        screen_row as u16
    }

    /// Write a string starting at the given position, wrapping at the right
    /// edge of the screen (or truncating there when `wrap` is false) and
    /// clipping at the bottom; returns the row where the text ended.
    pub fn write_str_wrapped(
        &mut self,
        start_row: u16,
        start_col: u16,
        text: &str,
        fg: Color,
        bg: Color,
        style: Style,
        wrap: bool,
    ) -> (r: u16)
        requires
            old(self).wf(),
            start_row < u16::MAX,
        ensures
            final(self)@.width == old(self)@.width,
            final(self)@.height == old(self)@.height,
            final(self).wf(),
            final(self)@ == wrap_run(screen_wrap_spec(old(self)@, wrap), start_col as int, wrap_start(old(self)@, start_row as int, start_col as int), text@, fg, bg, style).v,
            r == wrap_run(screen_wrap_spec(old(self)@, wrap), start_col as int, wrap_start(old(self)@, start_row as int, start_col as int), text@, fg, bg, style).screen_row,
    {
        let cfg = WrapConfig {
            wrap_col: self.width,
            left_margin: 0,
            max_row: if self.height > 0 { self.height - 1 } else { 0 },
            skip_rows: 0,
            no_wrap: !wrap,
            screen_bounded: true,
        };
        self.write_wrapped(start_row, start_col, text, fg, bg, style, cfg)
    }

    /// Write a string with wrapping at column `wrap_col`, continuation lines
    /// starting at `left_margin`, clipped after row `max_row`; returns the row
    /// where the text ended.
    pub fn write_str_wrapped_clipped(
        &mut self,
        start_row: u16,
        start_col: u16,
        text: &str,
        fg: Color,
        bg: Color,
        style: Style,
        left_margin: u16,
        max_row: u16,
        wrap_col: u16,
    ) -> (r: u16)
        requires
            old(self).wf(),
            start_row < u16::MAX,
            max_row < u16::MAX,
        ensures
            final(self)@.width == old(self)@.width,
            final(self)@.height == old(self)@.height,
            final(self).wf(),
            final(self)@ == wrap_run(clip_wrap_spec(left_margin as int, max_row as int, wrap_col as int, 0), start_col as int, wrap_start(old(self)@, start_row as int, start_col as int), text@, fg, bg, style).v,
            r == wrap_run(clip_wrap_spec(left_margin as int, max_row as int, wrap_col as int, 0), start_col as int, wrap_start(old(self)@, start_row as int, start_col as int), text@, fg, bg, style).screen_row,
            same_outside_rows(old(self)@, final(self)@, start_row as int, max_row + 1),
    {
        proof {
            lemma_wrap_run_within(
                clip_wrap_spec(left_margin as int, max_row as int, wrap_col as int, 0),
                start_col as int,
                wrap_start(self@, start_row as int, start_col as int),
                text@,
                fg,
                bg,
                style,
                start_row as int,
            );
        }
        let cfg = WrapConfig { wrap_col, left_margin, max_row, skip_rows: 0, no_wrap: false, screen_bounded: false };
        self.write_wrapped(start_row, start_col, text, fg, bg, style, cfg)
    }

    /// Like [`Self::write_str_wrapped_clipped`], but the first `skip_rows`
    /// visual rows of the text are not drawn (scrolled out of view).
    pub fn write_str_wrapped_skip_clipped(
        &mut self,
        start_row: u16,
        start_col: u16,
        text: &str,
        fg: Color,
        bg: Color,
        style: Style,
        left_margin: u16,
        max_row: u16,
        wrap_col: u16,
        skip_rows: usize,
    )
        requires
            old(self).wf(),
            start_row < u16::MAX,
            max_row < u16::MAX,
        ensures
            final(self)@.width == old(self)@.width,
            final(self)@.height == old(self)@.height,
            final(self).wf(),
            final(self)@ == wrap_run(clip_wrap_spec(left_margin as int, max_row as int, wrap_col as int, skip_rows as int), start_col as int, wrap_start(old(self)@, start_row as int, start_col as int), text@, fg, bg, style).v,
            same_outside_rows(old(self)@, final(self)@, start_row as int, max_row + 1),
    {
        proof {
            lemma_wrap_run_within(
                clip_wrap_spec(left_margin as int, max_row as int, wrap_col as int, skip_rows as int),
                start_col as int,
                wrap_start(self@, start_row as int, start_col as int),
                text@,
                fg,
                bg,
                style,
                start_row as int,
            );
        }
        let cfg = WrapConfig { wrap_col, left_margin, max_row, skip_rows, no_wrap: false, screen_bounded: false };
        self.write_wrapped(start_row, start_col, text, fg, bg, style, cfg);
    }

    /// Write a string starting at the given position, with the given style.
    ///
    /// Characters past the screen width are dropped. Each character is
    /// placed according to its Unicode display width; zero-width characters
    /// (e.g. combining marks) overwrite the previous cell; a wide character
    /// is followed by a continuation cell.
    pub fn write_str(&mut self, row: u16, col: u16, text: &str, fg: Color, bg: Color, style: Style)
        requires
            old(self).wf(),
        ensures
            final(self)@.width == old(self)@.width,
            final(self)@.height == old(self)@.height,
            final(self).wf(),
            final(self)@ == write_run(old(self)@, row as int, col as int, col as int, text@, fg, bg, style),
            same_outside_rows(old(self)@, final(self)@, row as int, row + 1),
    {
        proof {
            lemma_write_run_rows(self@, row as int, col as int, col as int, text@, fg, bg, style);
        }
        let cs = chars_of(text);
        let n = cs.len();
        let mut i: usize = 0;
        let mut c: u32 = col as u32;
        proof {
            assert(cs@.skip(0) =~= cs@);
        }
        while i < n && c < self.width as u32
            invariant
                self.wf(),
                n == cs@.len(),
                cs@ == text@,
                i <= n,
                c <= 0xFFFF + 3,
                self@.width == old(self)@.width,
                self@.height == old(self)@.height,
                write_run(self@, row as int, col as int, c as int, cs@.skip(i as int), fg, bg, style)
                    == write_run(old(self)@, row as int, col as int, col as int, text@, fg, bg, style),
            decreases n - i,
        {
            let ch = cs[i];
            let w = width_or_one(ch);
            proof {
                assert(cs@.skip(i as int).drop_first() =~= cs@.skip(i + 1));
                assert(cs@.skip(i as int)[0] == ch);
            }
            if w == 0 {
                self.merge_combining_mark(row, c as u16, col, ch, fg, bg, style, true);
            } else {
                self.set_cell(row, c as u16, Cell { char: ch, fg, bg, style, wide: false });
                if w > 1 && c + 1 < self.width as u32 {
                    self.set_cell(row, (c + 1) as u16, Cell::wide_continuation(fg, bg, style));
                }
                c = c + w as u32;
            }
            i += 1;
        }
        proof {
            if i < n {
                assert(c >= self@.width);
            } else {
                assert(cs@.skip(i as int).len() == 0);
            }
        }
    }
}

impl Clone for Screen {
    fn clone(&self) -> (r: Self)
        ensures
            r@ == self@,
    {
        let mut cells: Vec<Cell> = Vec::new();
        let n = self.cells.len();
        for i in 0..n
            invariant
                n == self.cells@.len(),
                cells@ == self.cells@.take(i as int),
        {
            cells.push(self.cells[i]);
            proof {
                assert(cells@ =~= self.cells@.take(i + 1));
            }
        }
        proof {
            assert(self.cells@.take(n as int) =~= self.cells@);
        }
        Screen { width: self.width, height: self.height, cells }
    }
}

/// What the terminal is known to hold while a diff is rendered: where the
/// cursor stands (no column when unknown) and the active colors and style.
pub struct RenderState {
    pub row: Option<u16>,
    pub col: Option<int>,
    pub fg: Option<Color>,
    pub bg: Option<Color>,
    pub style: Option<Style>,
}

/// The columns a drawn character advances the cursor: its display width,
/// at least 1.
pub open spec fn advance(c: char) -> int {
    if render_width(c) >= 1 { render_width(c) as int } else { 1 }
}

/// `ESC [ row ; col H`, moving the cursor (1-based).
pub open spec fn cursor_move(row: int, col: int) -> Seq<char> {
    seq!['\x1b', '['] + decimal(row as nat) + seq![';'] + decimal(col as nat) + seq!['H']
}

/// The output for one cell and the state after it: a continuation cell
/// gives nothing; otherwise a cursor move unless the cursor is already
/// there, a reset when the style changes or a non-default color changes,
/// the style and colors that differ from the active ones, and the character.
pub open spec fn render_op(st: RenderState, op: DiffOp, width: int) -> (Seq<char>, RenderState) {
    match op {
        DiffOp::SetCell { row, col, cell } => if cell.wide {
            (Seq::empty(), st)
        } else {
            let mv = if st.row != Some(row) || st.col != Some(col as int) {
                cursor_move(row + 1, col + 1)
            } else {
                Seq::empty()
            };
            let w = advance(cell.char);
            (
                mv + attr_out(st, cell) + seq![cell.char],
                RenderState {
                    row: Some(row),
                    col: if col + w >= width { None } else { Some(col + w) },
                    fg: Some(cell.fg),
                    bg: Some(cell.bg),
                    style: Some(cell.style),
                },
            )
        },
    }
}

/// Whether drawing `cell` needs a reset first: its style differs from the
/// active one, or a non-default color of it differs from the active one.
pub open spec fn needs_reset(st: RenderState, cell: Cell) -> bool {
    st.style != Some(cell.style) || (st.fg != Some(cell.fg) && cell.fg != Color::Default)
        || (st.bg != Some(cell.bg) && cell.bg != Color::Default)
}

/// The escape sequences before drawing `cell`: the reset if needed, then
/// the style, foreground and background that differ from the active ones.
pub open spec fn attr_out(st: RenderState, cell: Cell) -> Seq<char> {
    let reset = needs_reset(st, cell);
    let st1 = if reset { RenderState { fg: None, bg: None, style: None, ..st } } else { st };
    (if reset { sgr(seq!['0']) } else { Seq::empty() })
        + (if st1.style != Some(cell.style) { style_escape(cell.style) } else { Seq::empty() })
        + (if st1.fg != Some(cell.fg) { sgr(color_body(cell.fg, 30)) } else { Seq::empty() })
        + (if st1.bg != Some(cell.bg) { sgr(color_body(cell.bg, 40)) } else { Seq::empty() })
}

/// The output for a run of cells from state `st`.
pub open spec fn render_ops(ops: Seq<DiffOp>, st: RenderState, width: int) -> Seq<char>
    decreases ops.len(),
{
    if ops.len() == 0 {
        Seq::empty()
    } else {
        let (o, st2) = render_op(st, ops[0], width);
        o + render_ops(ops.drop_first(), st2, width)
    }
}

/// The terminal output for a diff: nothing for no changes; otherwise the
/// cells from an unknown terminal state, then a reset.
pub open spec fn rendered_diff(ops: Seq<DiffOp>, width: int) -> Seq<char> {
    if ops.len() == 0 {
        Seq::empty()
    } else {
        render_ops(ops, RenderState { row: None, col: None, fg: None, bg: None, style: None }, width) + sgr(seq!['0'])
    }
}

/// The terminal state known before a diff is drawn: nothing.
pub open spec fn unknown_state() -> RenderState {
    RenderState { row: None, col: None, fg: None, bg: None, style: None }
}

/// The state after drawing a run of cells from state `st`.
pub open spec fn state_after(ops: Seq<DiffOp>, st: RenderState, width: int) -> RenderState
    decreases ops.len(),
{
    if ops.len() == 0 {
        st
    } else {
        state_after(ops.drop_first(), render_op(st, ops[0], width).1, width)
    }
}

/// Whether `e` occurs in `out` as a contiguous run.
pub open spec fn occurs_in(out: Seq<char>, e: Seq<char>) -> bool {
    exists|p: int| 0 <= p && p + e.len() <= out.len() && #[trigger] out.subrange(p, p + e.len()) == e
}

/// Drawing one cell that is not a continuation: unless the cursor is known
/// to stand on the cell, the output starts with a move to it; it ends with
/// the cell's character; a foreground or background that is not known to
/// be active is selected, and a style that is not known to be active is
/// selected right after a reset. Afterwards the cursor stands on the cell's
/// row, just after the character (unknown once that reaches the right
/// edge), with the cell's colors and style active.
pub proof fn lemma_render_op_places_cell(st: RenderState, row: u16, col: u16, cell: Cell, width: int)
    requires
        !cell.wide,
    ensures
        ({
            let (out, st2) = render_op(st, DiffOp::SetCell { row, col, cell }, width);
            &&& !(st.row == Some(row) && st.col == Some(col as int))
                ==> out.len() >= cursor_move(row + 1, col + 1).len()
                && out.subrange(0, cursor_move(row + 1, col + 1).len() as int) == cursor_move(row + 1, col + 1)
            &&& out.len() >= 1 && out.last() == cell.char
            &&& st.fg != Some(cell.fg) ==> occurs_in(out, sgr(color_body(cell.fg, 30)))
            &&& st.bg != Some(cell.bg) ==> occurs_in(out, sgr(color_body(cell.bg, 40)))
            &&& st.style != Some(cell.style) ==> occurs_in(out, sgr(seq!['0']) + style_escape(cell.style))
            &&& st2.row == Some(row)
            &&& st2.col == (if col + advance(cell.char) >= width { None } else { Some(col + advance(cell.char)) })
            &&& st2.fg == Some(cell.fg) && st2.bg == Some(cell.bg) && st2.style == Some(cell.style)
        }),
{
    let (out, st2) = render_op(st, DiffOp::SetCell { row, col, cell }, width);
    let mv = if st.row != Some(row) || st.col != Some(col as int) {
        cursor_move(row + 1, col + 1)
    } else {
        Seq::empty()
    };
    let reset = needs_reset(st, cell);
    let st1 = if reset { RenderState { fg: None, bg: None, style: None, ..st } } else { st };
    let r = if reset { sgr(seq!['0']) } else { Seq::empty() };
    let se = if st1.style != Some(cell.style) { style_escape(cell.style) } else { Seq::empty() };
    let fe = if st1.fg != Some(cell.fg) { sgr(color_body(cell.fg, 30)) } else { Seq::empty() };
    let be = if st1.bg != Some(cell.bg) { sgr(color_body(cell.bg, 40)) } else { Seq::empty() };
    assert(out =~= mv + r + se + fe + be + seq![cell.char]);
    if !(st.row == Some(row) && st.col == Some(col as int)) {
        assert(out.subrange(0, mv.len() as int) =~= mv);
    }
    if st.fg != Some(cell.fg) {
        let p = (mv.len() + r.len() + se.len()) as int;
        assert(out.subrange(p, p + fe.len()) =~= fe);
    }
    if st.bg != Some(cell.bg) {
        let p = (mv.len() + r.len() + se.len() + fe.len()) as int;
        assert(out.subrange(p, p + be.len()) =~= be);
    }
    if st.style != Some(cell.style) {
        let p = mv.len() as int;
        assert(out.subrange(p, p + (r + se).len()) =~= r + se);
    }
}

/// Drawing `a` then `b` is drawing `a + b`.
proof fn lemma_render_ops_concat(a: Seq<DiffOp>, b: Seq<DiffOp>, st: RenderState, width: int)
    ensures
        render_ops(a + b, st, width) == render_ops(a, st, width) + render_ops(b, state_after(a, st, width), width),
        state_after(a + b, st, width) == state_after(b, state_after(a, st, width), width),
    decreases a.len(),
{
    if a.len() == 0 {
        assert(a + b =~= b);
    } else {
        let st2 = render_op(st, a[0], width).1;
        assert((a + b)[0] == a[0]);
        assert((a + b).drop_first() =~= a.drop_first() + b);
        lemma_render_ops_concat(a.drop_first(), b, st2, width);
        assert(render_ops(a + b, st, width) =~= render_ops(a, st, width) + render_ops(
            b,
            state_after(a, st, width),
            width,
        ));
    }
}

/// The output of a run of cells split at cell `i`: the cells before it,
/// cell `i` drawn from the state they leave, then the cells after it.
proof fn lemma_render_ops_at(ops: Seq<DiffOp>, st: RenderState, width: int, i: int)
    requires
        0 <= i < ops.len(),
    ensures
        render_ops(ops, st, width) == render_ops(ops.take(i), st, width) + render_op(
            state_after(ops.take(i), st, width),
            ops[i],
            width,
        ).0 + render_ops(ops.skip(i + 1), render_op(state_after(ops.take(i), st, width), ops[i], width).1, width),
        state_after(ops.take(i + 1), st, width) == render_op(state_after(ops.take(i), st, width), ops[i], width).1,
{
    let pre = ops.take(i);
    let rest = ops.skip(i);
    let before = state_after(pre, st, width);
    assert(ops =~= pre + rest);
    lemma_render_ops_concat(pre, rest, st, width);
    assert(rest[0] == ops[i]);
    assert(rest.drop_first() =~= ops.skip(i + 1));
    assert(ops.take(i + 1) =~= pre + seq![ops[i]]);
    lemma_render_ops_concat(pre, seq![ops[i]], st, width);
    assert(seq![ops[i]].drop_first() =~= Seq::<DiffOp>::empty());
    assert(seq![ops[i]][0] == ops[i]);
    let s1 = render_op(before, ops[i], width).1;
    assert(state_after(Seq::<DiffOp>::empty(), s1, width) == s1);
    assert(state_after(seq![ops[i]], before, width) == s1);
}

/// In the output of a diff, each drawn cell (not a continuation) comes
/// where the output of the cells before it ends; if the cursor is not
/// known to stand on the cell after those cells, a move to the cell comes
/// first. After the cell the cursor stands just past its character.
#[verifier::spinoff_prover]
pub proof fn lemma_rendered_diff_moves(ops: Seq<DiffOp>, width: int, i: int)
    requires
        0 <= i < ops.len(),
        !(ops[i]->cell).wide,
    ensures
        ({
            let before = state_after(ops.take(i), unknown_state(), width);
            let p = render_ops(ops.take(i), unknown_state(), width).len() as int;
            let out = rendered_diff(ops, width);
            let row = ops[i]->row;
            let col = ops[i]->col;
            let ch = (ops[i]->cell).char;
            let mv = cursor_move(row + 1, col + 1);
            let after = state_after(ops.take(i + 1), unknown_state(), width);
            &&& render_ops(ops.take(i), unknown_state(), width).is_prefix_of(out)
            &&& !(before.row == Some(row) && before.col == Some(col as int))
                ==> out.len() >= p + mv.len() && out.subrange(p, p + mv.len()) == mv
            &&& after.row == Some(row)
            &&& after.col == (if col + advance(ch) >= width { None } else { Some(col + advance(ch)) })
        }),
{
    let st0 = unknown_state();
    let before = state_after(ops.take(i), st0, width);
    let row = ops[i]->row;
    let col = ops[i]->col;
    let cell = ops[i]->cell;
    assert(ops[i] == DiffOp::SetCell { row, col, cell });
    lemma_render_ops_at(ops, st0, width, i);
    lemma_render_op_places_cell(before, row, col, cell, width);
    let r0 = render_ops(ops.take(i), st0, width);
    let o = render_op(before, ops[i], width).0;
    let tail = render_ops(ops.skip(i + 1), render_op(before, ops[i], width).1, width) + sgr(seq!['0']);
    let out = rendered_diff(ops, width);
    assert(out =~= r0 + (o + tail));
    assert(out.subrange(0, r0.len() as int) =~= r0);
    if !(before.row == Some(row) && before.col == Some(col as int)) {
        let mv = cursor_move(row + 1, col + 1);
        let p = r0.len() as int;
        assert(out.subrange(p, p + mv.len()) =~= o.subrange(0, mv.len() as int));
    }
}

/// Whether the cell positions of a diff can be drawn without 16-bit
/// overflow: each drawn cell's row and the column after it are coordinates.
pub open spec fn ops_drawable(ops: Seq<DiffOp>) -> bool {
    forall|i: int| 0 <= i < ops.len() ==> match #[trigger] ops[i] {
        DiffOp::SetCell { row, col, cell } => row < u16::MAX && (cell.wide || col + advance(cell.char) <= u16::MAX),
    }
}

fn same_color(a: Option<Color>, b: Color) -> (r: bool)
    ensures
        r == (a == Some(b)),
{
    match a {
        Some(x) => x == b,
        None => false,
    }
}

fn same_style(a: Option<Style>, b: Style) -> (r: bool)
    ensures
        r == (a == Some(b)),
{
    match a {
        Some(x) => x == b,
        None => false,
    }
}

/// The terminal state tracked while rendering.
struct Tracker {
    row: Option<u16>,
    col: Option<u16>,
    fg: Option<Color>,
    bg: Option<Color>,
    style: Option<Style>,
}

impl Tracker {
    spec fn state(&self) -> RenderState {
        RenderState {
            row: self.row,
            col: match self.col {
                Some(c) => Some(c as int),
                None => None,
            },
            fg: self.fg,
            bg: self.bg,
            style: self.style,
        }
    }

    fn set_attrs(&mut self, out: &mut String, cell: Cell)
        ensures
            final(out)@ == old(out)@ + attr_out(old(self).state(), cell),
            final(self).fg == Some(cell.fg),
            final(self).bg == Some(cell.bg),
            final(self).style == Some(cell.style),
            final(self).row == old(self).row,
            final(self).col == old(self).col,
    {
        let reset = !same_style(self.style, cell.style)
            || (!same_color(self.fg, cell.fg) && cell.fg != Color::Default)
            || (!same_color(self.bg, cell.bg) && cell.bg != Color::Default);
        let ghost o0 = out@;
        if reset {
            push_str(out, Style::reset());
            self.fg = None;
            self.bg = None;
            self.style = None;
        }
        let ghost o1 = out@;
        if !same_style(self.style, cell.style) {
            let e = cell.style.escape();
            push_str(out, e.as_str());
        }
        let ghost o2 = out@;
        if !same_color(self.fg, cell.fg) {
            let e = cell.fg.fg_escape();
            push_str(out, e.as_str());
        }
        let ghost o3 = out@;
        if !same_color(self.bg, cell.bg) {
            let e = cell.bg.bg_escape();
            push_str(out, e.as_str());
        }
        self.fg = Some(cell.fg);
        self.bg = Some(cell.bg);
        self.style = Some(cell.style);
        proof {
            assert(final(out)@ =~= o0 + attr_out(old(self).state(), cell));
        }
    }

    fn draw(&mut self, out: &mut String, op: DiffOp, width: u16)
        requires
            match op {
                DiffOp::SetCell { row, col, cell } => row < u16::MAX && (cell.wide || col + advance(cell.char) <= u16::MAX),
            },
        ensures
            final(out)@ == old(out)@ + render_op(old(self).state(), op, width as int).0,
            final(self).state() == render_op(old(self).state(), op, width as int).1,
    {
        let ghost st = self.state();
        match op {
            DiffOp::SetCell { row, col, cell } => {
                if cell.wide {
                    proof {
                        assert(final(out)@ =~= old(out)@ + render_op(st, op, width as int).0);
                    }
                    return;
                }
                let moved = match (self.row, self.col) {
                    (Some(r0), Some(c0)) => r0 != row || c0 != col,
                    _ => true,
                };
                if moved {
                    string_push(out, '\x1b');
                    string_push(out, '[');
                    push_decimal(out, (row + 1) as u64);
                    string_push(out, ';');
                    push_decimal(out, (col + 1) as u64);
                    string_push(out, 'H');
                }
                self.set_attrs(out, cell);
                string_push(out, cell.char);
                let w0 = width_or_one(cell.char);
                let w: u16 = if w0 >= 1 { w0 as u16 } else { 1 };
                self.fg = Some(cell.fg);
                self.bg = Some(cell.bg);
                self.style = Some(cell.style);
                self.row = Some(row);
                self.col = if col + w >= width { None } else { Some(col + w) };
                proof {
                    let mv = if st.row != Some(row) || st.col != Some(col as int) {
                        cursor_move(row + 1, col + 1)
                    } else {
                        Seq::empty()
                    };
                    assert(final(out)@ =~= old(out)@ + render_op(st, op, width as int).0);
                }
            },
        }
    }
}

impl Screen {
    /// The terminal output that draws a diff (see [`rendered_diff`]).
    pub fn render_diff(ops: &[DiffOp], width: u16) -> (r: String)
        requires
            ops_drawable(ops@),
        ensures
            r@ == rendered_diff(ops@, width as int),
    {
        if ops.len() == 0 {
            return String::new();
        }
        let mut out = String::new();
        let mut t = Tracker { row: None, col: None, fg: None, bg: None, style: None };
        let ghost init = t.state();
        proof {
            assert(ops@.skip(0) =~= ops@);
            assert(out@ =~= Seq::<char>::empty());
        }
        let mut i: usize = 0;
        while i < ops.len()
            invariant
                i <= ops@.len(),
                ops_drawable(ops@),
                out@ + render_ops(ops@.skip(i as int), t.state(), width as int) == render_ops(ops@, init, width as int),
            decreases ops@.len() - i,
        {
            let ghost rest = ops@.skip(i as int);
            let ghost old_out = out@;
            let ghost st = t.state();
            proof {
                assert(rest[0] == ops@[i as int]);
                assert(rest.drop_first() =~= ops@.skip(i + 1));
                let op = ops@[i as int];
            }
            t.draw(&mut out, ops[i], width);
            proof {
                assert(old_out + render_ops(rest, st, width as int)
                    =~= out@ + render_ops(ops@.skip(i + 1), t.state(), width as int));
            }
            i += 1;
        }
        proof {
            assert(ops@.skip(i as int).len() == 0);
        }
        push_str(&mut out, Style::reset());
        out
    }
}

} // verus!

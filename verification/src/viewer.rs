use vstd::prelude::*;
use crate::paging::{WORDS_PER_PAGE, page_of};

verus! {

/// One row of the reader view.
#[derive(Clone, Copy, PartialEq, Eq, Debug)]
pub enum ViewLine {
    /// The words `first .. first + count`, each followed by a space.
    Words { first: usize, count: usize },
    /// An empty row.
    Blank,
    /// The heading shown before the first word of each page after the first.
    PageMarker { page: usize, word: usize },
}

/// Where a word was drawn: its row, and the columns from its first
/// character to the space after it.
#[derive(Clone, Copy, PartialEq, Eq, Debug)]
pub struct WordPosition {
    pub index: usize,
    pub row: u32,
    pub col_start: u32,
    pub col_end: u32,
}

/// The state of the layout after some words have been considered.
pub struct LayoutState {
    pub lines: Seq<ViewLine>,
    pub positions: Seq<WordPosition>,
    pub cx: int,
    pub cy: int,
    pub open: nat,
    pub next_offset: Option<int>,
    pub stopped: bool,
}

pub open spec fn initial_layout() -> LayoutState {
    LayoutState {
        lines: Seq::empty(),
        positions: Seq::empty(),
        cx: 0,
        cy: 0,
        open: 0,
        next_offset: None,
        stopped: false,
    }
}

/// Ends the unfinished row of words, if any; `next` is the index of the
/// word that comes after it.
pub open spec fn close_line(s: LayoutState, next: int) -> LayoutState {
    if s.open > 0 {
        LayoutState {
            lines: s.lines.push(ViewLine::Words { first: (next - s.open) as usize, count: s.open as usize }),
            cx: 0,
            cy: s.cy + 1,
            open: 0,
            ..s
        }
    } else {
        s
    }
}

/// Adds a full row when the view still has room for it.
pub open spec fn add_row(s: LayoutState, line: ViewLine, height: int) -> LayoutState {
    if s.cy < height {
        LayoutState { lines: s.lines.push(line), cy: s.cy + 1, ..s }
    } else {
        s
    }
}

/// The rows set before word `i` when it opens a new page.
pub open spec fn page_break(s: LayoutState, i: int, height: int) -> LayoutState {
    let s1 = close_line(s, i);
    let s2 = add_row(s1, ViewLine::Blank, height);
    let s3 = add_row(s2, ViewLine::PageMarker { page: page_of(i) as usize, word: i as usize }, height);
    add_row(s3, ViewLine::Blank, height)
}

/// Puts word `i` of width `w` at the current row and column.
pub open spec fn place_word(s: LayoutState, i: int, w: int, offset: int) -> LayoutState {
    LayoutState {
        positions: s.positions.push(
            WordPosition { index: i as usize, row: s.cy as u32, col_start: s.cx as u32, col_end: (s.cx + w) as u32 },
        ),
        cx: s.cx + w + 1,
        open: s.open + 1,
        next_offset: if s.cy > 0 && s.next_offset is None && i > offset { Some(i) } else { s.next_offset },
        ..s
    }
}

pub open spec fn stop(s: LayoutState) -> LayoutState {
    LayoutState { stopped: true, ..s }
}

/// What considering word `i` of width `w` does to the layout.
pub open spec fn layout_step(s: LayoutState, i: int, w: int, width: int, height: int, offset: int) -> LayoutState {
    if s.stopped || s.cy >= height {
        stop(s)
    } else {
        let s1 = if i > 0 && i % (WORDS_PER_PAGE as int) == 0 { page_break(s, i, height) } else { s };
        if s1.cy >= height {
            stop(s1)
        } else {
            let s2 = if s1.cx + w > width && s1.cx > 0 { close_line(s1, i) } else { s1 };
            if s2.cy >= height {
                stop(s2)
            } else {
                place_word(s2, i, w, offset)
            }
        }
    }
}

/// The layout after the words `offset .. n` have been considered.
pub open spec fn layout_upto(widths: Seq<u16>, width: int, height: int, offset: int, n: int) -> LayoutState
    decreases n - offset,
{
    if n <= offset {
        initial_layout()
    } else {
        layout_step(
            layout_upto(widths, width, height, offset, n - 1),
            n - 1,
            widths[n - 1] as int,
            width,
            height,
            offset,
        )
    }
}


/// The rows of the reader view and the places of the words drawn on them.
pub struct ViewLayout {
    pub lines: Vec<ViewLine>,
    pub positions: Vec<WordPosition>,
    /// One past the last word drawn.
    pub end: usize,
    /// The first word drawn below the top row, or the view offset when
    /// there is none.
    pub next_view_offset: usize,
    /// Whether the cursor lies past the drawn words, so that the view must
    /// scroll down.
    pub needs_scroll_down: bool,
}

/// The rows of a finished layout: the unfinished row of words is added
/// when there is room for it.
pub open spec fn final_lines(s: LayoutState, end: int, height: int) -> Seq<ViewLine> {
    if s.open > 0 && s.cy < height {
        s.lines.push(ViewLine::Words { first: (end - s.open) as usize, count: s.open as usize })
    } else {
        s.lines
    }
}

/// The number of words considered by the layout of a view starting at
/// `offset` over `len` words.
pub open spec fn layout_end(offset: int, len: int) -> int {
    if offset < len { len } else { offset }
}

/// The layout of the view over words of the given widths, starting at
/// `offset`, in a view of `width` columns and `height` rows.
pub open spec fn layout_of(widths: Seq<u16>, width: int, height: int, offset: int) -> LayoutState {
    layout_upto(widths, width, height, offset, layout_end(offset, widths.len() as int))
}

/// Sizes that keep the layout's numbers small: the column stays below
/// 65537 and the row within the view.
pub open spec fn layout_bounded(s: LayoutState, height: int) -> bool {
    &&& 0 <= s.cx <= 65536
    &&& 0 <= s.cy <= height
    &&& s.open <= s.positions.len()
}

struct LayoutBuilder {
    lines: Vec<ViewLine>,
    positions: Vec<WordPosition>,
    cx: u32,
    cy: u32,
    open: usize,
    next_offset: Option<usize>,
    stopped: bool,
}

impl LayoutBuilder {
    spec fn model(&self) -> LayoutState {
        LayoutState {
            lines: self.lines@,
            positions: self.positions@,
            cx: self.cx as int,
            cy: self.cy as int,
            open: self.open as nat,
            next_offset: match self.next_offset {
                Some(v) => Some(v as int),
                None => None,
            },
            stopped: self.stopped,
        }
    }

    fn new() -> (b: LayoutBuilder)
        ensures
            b.model() == initial_layout(),
    {
        let b = LayoutBuilder {
            lines: Vec::new(),
            positions: Vec::new(),
            cx: 0,
            cy: 0,
            open: 0,
            next_offset: None,
            stopped: false,
        };
        assert(b.model().lines =~= Seq::<ViewLine>::empty());
        assert(b.model().positions =~= Seq::<WordPosition>::empty());
        b
    }

    fn close_line(&mut self, next: usize)
        requires
            old(self).open <= next,
            old(self).cy < 65535,
        ensures
            final(self).model() == close_line(old(self).model(), next as int),
    {
        if self.open > 0 {
            self.lines.push(ViewLine::Words { first: next - self.open, count: self.open });
            self.cx = 0;
            self.cy = self.cy + 1;
            self.open = 0;
        }
    }

    fn add_row(&mut self, line: ViewLine, height: u16)
        requires
            old(self).cy <= height,
        ensures
            final(self).model() == add_row(old(self).model(), line, height as int),
    {
        if self.cy < height as u32 {
            self.lines.push(line);
            self.cy = self.cy + 1;
        }
    }

    fn place_word(&mut self, i: usize, w: u16, offset: usize)
        requires
            old(self).cx <= 65536,
            old(self).open < usize::MAX,
        ensures
            final(self).model() == place_word(old(self).model(), i as int, w as int, offset as int),
    {
        self.positions.push(WordPosition { index: i, row: self.cy, col_start: self.cx, col_end: self.cx + w as u32 });
        self.cx = self.cx + w as u32 + 1;
        self.open = self.open + 1;
        if self.cy > 0 && self.next_offset.is_none() && i > offset {
            self.next_offset = Some(i);
        }
    }
}

/// Whether the view must scroll down before events are read: the cursor
/// lies past the drawn words and words remain, and either a word was
/// drawn or the cursor lies past the view's first word. A view that
/// draws no word and starts at the cursor does not scroll, so that
/// events are still read.
pub open spec fn needs_scroll(s: LayoutState, offset: int, cursor: int, len: int) -> bool {
    &&& (s.positions.len() > 0 || cursor > offset)
    &&& cursor >= offset + s.positions.len()
    &&& offset + s.positions.len() < len
}

/// Where a view starting at `offset` scrolls to: the first word drawn
/// below its top row, and at least one word on.
pub open spec fn scroll_target(s: LayoutState, offset: int) -> int {
    let v = match s.next_offset {
        Some(v) => v,
        None => offset,
    };
    if v <= offset { offset + 1 } else { v }
}

/// Lays out the words from `view_offset` on, as the reader view draws
/// them: each word is followed by a space, a word that does not fit on
/// a row that already holds words starts a new row, and each page after
/// the first opens with a blank row, a page heading and a blank row.
/// `widths` holds the width of each word in columns.
pub fn view_layout(widths: &Vec<u16>, view_offset: usize, cursor: usize, inner_width: u16, inner_height: u16) -> (layout: ViewLayout)
    ensures
        ({
            let s = layout_of(widths@, inner_width as int, inner_height as int, view_offset as int);
            &&& layout.positions@ == s.positions
            &&& layout.end == view_offset + s.positions.len()
            &&& layout.lines@ == final_lines(s, layout.end as int, inner_height as int)
            &&& layout.next_view_offset == match s.next_offset {
                Some(v) => v,
                None => view_offset as int,
            }
            &&& layout.needs_scroll_down == needs_scroll(s, view_offset as int, cursor as int, widths.len() as int)
        }),
        view_offset <= widths.len() ==> layout.end <= widths.len(),
{
    let ghost ws = widths@;
    let ghost width = inner_width as int;
    let ghost height = inner_height as int;
    let len = widths.len();
    let mut b = LayoutBuilder::new();
    let mut k = view_offset;
    while k < len && !b.stopped
        invariant
            len == widths.len(),
            ws == widths@,
            width == inner_width as int,
            height == inner_height as int,
            view_offset <= k <= layout_end(view_offset as int, len as int),
            b.model() == layout_upto(ws, width, height, view_offset as int, k as int),
            layout_bounded(b.model(), height),
            !b.stopped ==> b.positions.len() == k - view_offset,
            b.positions.len() <= k - view_offset,
        decreases len - k,
    {
        let ghost before = b.model();
        if b.cy >= inner_height as u32 {
            b.stopped = true;
        } else {
            if k > 0 && k % WORDS_PER_PAGE == 0 {
                b.close_line(k);
                b.add_row(ViewLine::Blank, inner_height);
                b.add_row(ViewLine::PageMarker { page: k / WORDS_PER_PAGE + 1, word: k }, inner_height);
                b.add_row(ViewLine::Blank, inner_height);
            }
            if b.cy >= inner_height as u32 {
                b.stopped = true;
            } else {
                let w = widths[k];
                if b.cx + w as u32 > inner_width as u32 && b.cx > 0 {
                    b.close_line(k);
                }
                if b.cy >= inner_height as u32 {
                    b.stopped = true;
                } else {
                    b.place_word(k, w, view_offset);
                }
            }
        }
        assert(b.model() == layout_step(before, k as int, ws[k as int] as int, width, height, view_offset as int));
        k = k + 1;
    }
    proof {
        lemma_stopped_layout_stays(ws, width, height, view_offset as int, k as int, layout_end(view_offset as int, len as int));
    }
    let end = view_offset + b.positions.len();
    let drew_words = b.positions.len() > 0;
    let mut lines = b.lines;
    if b.open > 0 && b.cy < inner_height as u32 {
        lines.push(ViewLine::Words { first: end - b.open, count: b.open });
    }
    let next_view_offset = match b.next_offset {
        Some(v) => v,
        None => view_offset,
    };
    ViewLayout {
        lines,
        positions: b.positions,
        end,
        next_view_offset,
        needs_scroll_down: (drew_words || cursor > view_offset) && cursor >= end && end < len,
    }
}

/// Once the layout has stopped, further words change nothing.
proof fn lemma_stopped_layout_stays(widths: Seq<u16>, width: int, height: int, offset: int, n: int, m: int)
    requires
        offset <= n <= m,
        layout_upto(widths, width, height, offset, n).stopped || n == m,
    ensures
        layout_upto(widths, width, height, offset, m) == layout_upto(widths, width, height, offset, n),
    decreases m - n,
{
    if n < m {
        lemma_stopped_layout_stays(widths, width, height, offset, n, m - 1);
    }
}


/// The places of the drawn words, as the reader view promises them:
/// words follow each other from `offset` on; each stands inside the view;
/// its columns span its width; a word after the first on a row stands one
/// column after the space of the word before it and still fits in the
/// view's width; a word that opens a row starts at column 0; and a word
/// that opens a page never shares a row with the word before it.
pub open spec fn well_placed(ps: Seq<WordPosition>, widths: Seq<u16>, width: int, height: int, offset: int) -> bool {
    &&& forall|j: int| 0 <= j < ps.len() ==> #[trigger] ps[j].index == offset + j
    &&& forall|j: int| 0 <= j < ps.len() ==> #[trigger] ps[j].row < height
    &&& forall|j: int|
        0 <= j < ps.len() ==> #[trigger] ps[j].col_end == ps[j].col_start + widths[offset + j]
    &&& forall|j: int| 0 <= j < ps.len() && #[trigger] ps[j].col_start > 0 ==> ps[j].col_end <= width
    &&& forall|j: int|
        0 < j < ps.len() ==> {
            ||| (#[trigger] ps[j]).row == ps[j - 1].row && ps[j].col_start == ps[j - 1].col_end + 1
            ||| ps[j].row > ps[j - 1].row && ps[j].col_start == 0
        }
    &&& forall|j: int|
        0 < j < ps.len() && (#[trigger] ps[j]).index % WORDS_PER_PAGE == 0 ==> ps[j].row
            > ps[j - 1].row
}

/// How the unfinished row relates to the places of the words drawn so far.
pub open spec fn row_state_ok(s: LayoutState, widths: Seq<u16>, width: int, height: int, offset: int) -> bool {
    let ps = s.positions;
    &&& well_placed(ps, widths, width, height, offset)
    &&& layout_bounded(s, height)
    &&& s.lines.len() == s.cy
    &&& ps.len() == 0 ==> s.cx == 0 && s.open == 0
    &&& ps.len() > 0 && s.open > 0 ==> ps.last().row == s.cy && s.cx == ps.last().col_end + 1
    &&& ps.len() > 0 && s.open == 0 ==> ps.last().row < s.cy && s.cx == 0
}

/// What holds of the layout after the words `offset .. n` were considered.
pub open spec fn layout_inv(s: LayoutState, widths: Seq<u16>, width: int, height: int, offset: int, n: int) -> bool {
    &&& row_state_ok(s, widths, width, height, offset)
    &&& s.positions.len() <= n - offset
    &&& !s.stopped ==> s.positions.len() == n - offset
}

proof fn lemma_close_line_ok(s: LayoutState, next: int, widths: Seq<u16>, width: int, height: int, offset: int)
    requires
        row_state_ok(s, widths, width, height, offset),
        s.cy < height,
    ensures
        row_state_ok(close_line(s, next), widths, width, height, offset),
        close_line(s, next).positions == s.positions,
        close_line(s, next).open == 0,
        close_line(s, next).cy < height ==> close_line(s, next).cy >= s.cy,
        s.positions.len() > 0 ==> s.positions.last().row < close_line(s, next).cy,
{
}

proof fn lemma_add_row_ok(s: LayoutState, line: ViewLine, widths: Seq<u16>, width: int, height: int, offset: int)
    requires
        row_state_ok(s, widths, width, height, offset),
        s.open == 0,
    ensures
        row_state_ok(add_row(s, line, height), widths, width, height, offset),
        add_row(s, line, height).positions == s.positions,
        add_row(s, line, height).open == 0,
        add_row(s, line, height).cy >= s.cy,
{
}

proof fn lemma_page_break_ok(s: LayoutState, i: int, widths: Seq<u16>, width: int, height: int, offset: int)
    requires
        row_state_ok(s, widths, width, height, offset),
        s.cy < height,
    ensures
        row_state_ok(page_break(s, i, height), widths, width, height, offset),
        page_break(s, i, height).positions == s.positions,
        page_break(s, i, height).open == 0,
        s.positions.len() > 0 ==> s.positions.last().row < page_break(s, i, height).cy,
{
    let s1 = close_line(s, i);
    lemma_close_line_ok(s, i, widths, width, height, offset);
    let s2 = add_row(s1, ViewLine::Blank, height);
    lemma_add_row_ok(s1, ViewLine::Blank, widths, width, height, offset);
    let s3 = add_row(s2, ViewLine::PageMarker { page: page_of(i) as usize, word: i as usize }, height);
    lemma_add_row_ok(s2, ViewLine::PageMarker { page: page_of(i) as usize, word: i as usize }, widths, width, height, offset);
    lemma_add_row_ok(s3, ViewLine::Blank, widths, width, height, offset);
}

proof fn lemma_place_word_ok(s: LayoutState, i: int, widths: Seq<u16>, width: int, height: int, offset: int)
    requires
        row_state_ok(s, widths, width, height, offset),
        0 <= width <= 65535,
        0 <= height <= 65535,
        0 <= offset <= i < widths.len(),
        i < usize::MAX,
        s.positions.len() == i - offset,
        s.cy < height,
        s.cx == 0 || s.cx + widths[i] <= width,
        i % (WORDS_PER_PAGE as int) == 0 && s.positions.len() > 0 ==> s.positions.last().row < s.cy,
    ensures
        row_state_ok(place_word(s, i, widths[i] as int, offset), widths, width, height, offset),
        place_word(s, i, widths[i] as int, offset).positions.len() == s.positions.len() + 1,
{
    let t = place_word(s, i, widths[i] as int, offset);
    let ps = t.positions;
    assert(ps.last() == ps[ps.len() - 1]);
    assert forall|j: int| 0 < j < ps.len() && (#[trigger] ps[j]).index % WORDS_PER_PAGE == 0
        implies ps[j].row > ps[j - 1].row by {
        if j < ps.len() - 1 {
            assert(ps[j] == s.positions[j]);
            assert(ps[j - 1] == s.positions[j - 1]);
        } else {
            assert(s.positions.last() == ps[j - 1]);
        }
    }
    assert forall|j: int| 0 < j < ps.len() implies {
        ||| (#[trigger] ps[j]).row == ps[j - 1].row && ps[j].col_start == ps[j - 1].col_end + 1
        ||| ps[j].row > ps[j - 1].row && ps[j].col_start == 0
    } by {
        if j < ps.len() - 1 {
            assert(ps[j] == s.positions[j]);
            assert(ps[j - 1] == s.positions[j - 1]);
        } else {
            assert(s.positions.last() == ps[j - 1]);
        }
    }
    assert forall|j: int| 0 <= j < ps.len() implies #[trigger] ps[j].index == offset + j by {
        if j < ps.len() - 1 {
            assert(ps[j] == s.positions[j]);
        }
    }
    assert forall|j: int| 0 <= j < ps.len() implies #[trigger] ps[j].row < height by {
        if j < ps.len() - 1 {
            assert(ps[j] == s.positions[j]);
        }
    }
    assert forall|j: int| 0 <= j < ps.len() implies #[trigger] ps[j].col_end == ps[j].col_start + widths[offset + j] by {
        if j < ps.len() - 1 {
            assert(ps[j] == s.positions[j]);
        }
    }
    assert forall|j: int| 0 <= j < ps.len() && #[trigger] ps[j].col_start > 0 implies ps[j].col_end <= width by {
        if j < ps.len() - 1 {
            assert(ps[j] == s.positions[j]);
        }
    }
}

proof fn lemma_layout_inv(widths: Seq<u16>, width: int, height: int, offset: int, n: int)
    requires
        0 <= width <= 65535,
        0 <= height <= 65535,
        0 <= offset <= n <= widths.len(),
        widths.len() <= usize::MAX,
    ensures
        layout_inv(layout_upto(widths, width, height, offset, n), widths, width, height, offset, n),
    decreases n - offset,
{
    if n > offset {
        lemma_layout_inv(widths, width, height, offset, n - 1);
        let s = layout_upto(widths, width, height, offset, n - 1);
        let i = n - 1;
        let w = widths[i] as int;
        if !(s.stopped || s.cy >= height) {
            let s1 = if i > 0 && i % (WORDS_PER_PAGE as int) == 0 { page_break(s, i, height) } else { s };
            if i > 0 && i % (WORDS_PER_PAGE as int) == 0 {
                lemma_page_break_ok(s, i, widths, width, height, offset);
            }
            if s1.cy < height {
                let s2 = if s1.cx + w > width && s1.cx > 0 { close_line(s1, i) } else { s1 };
                if s1.cx + w > width && s1.cx > 0 {
                    lemma_close_line_ok(s1, i, widths, width, height, offset);
                }
                if s2.cy < height {
                    lemma_place_word_ok(s2, i, widths, width, height, offset);
                }
            }
        }
    }
}

/// Whether a row of the view holds the word at `index`.
pub open spec fn covers(line: ViewLine, index: int) -> bool {
    match line {
        ViewLine::Words { first, count } => first <= index < first + count,
        _ => false,
    }
}

/// Whether the word drawn at `p` stands in the row the rows give for it.
pub open spec fn shown_at(lines: Seq<ViewLine>, p: WordPosition) -> bool {
    p.row < lines.len() && covers(lines[p.row as int], p.index as int)
}

/// Whether word `i` opens a page after the first.
pub open spec fn opens_page(i: int) -> bool {
    i > 0 && i % (WORDS_PER_PAGE as int) == 0
}

/// Whether the three rows above `row` are a blank row, the heading of the
/// page that word `i` opens, and a blank row.
pub open spec fn heading_before(lines: Seq<ViewLine>, row: int, i: int) -> bool {
    &&& 3 <= row <= lines.len()
    &&& lines[row - 3] == ViewLine::Blank
    &&& lines[row - 2] == ViewLine::PageMarker { page: page_of(i) as usize, word: i as usize }
    &&& lines[row - 1] == ViewLine::Blank
}

/// How the finished rows relate to the drawn words.
pub open spec fn lines_ok(s: LayoutState, offset: int) -> bool {
    let ps = s.positions;
    let n = offset + ps.len();
    &&& forall|j: int| 0 <= j < ps.len() ==> #[trigger] ps[j].row <= s.cy
    &&& forall|j: int| 0 <= j < ps.len() && #[trigger] ps[j].row < s.cy ==> shown_at(s.lines, ps[j])
    &&& forall|j: int| 0 <= j < ps.len() && #[trigger] ps[j].row == s.cy ==> n - s.open <= ps[j].index
    &&& forall|j: int|
        0 <= j < ps.len() && opens_page(#[trigger] ps[j].index as int) ==> heading_before(
            s.lines,
            ps[j].row as int,
            ps[j].index as int,
        )
    &&& s.next_offset matches Some(v) ==> offset < v < n
}

/// The facts about a layout that the rows' lemmas need.
pub open spec fn rows_basic(s: LayoutState, offset: int) -> bool {
    &&& forall|j: int| 0 <= j < s.positions.len() ==> #[trigger] s.positions[j].index == offset + j
    &&& s.lines.len() == s.cy
    &&& 0 <= offset
    &&& s.open <= s.positions.len()
}

proof fn lemma_close_line_lines(s: LayoutState, next: int, offset: int)
    requires
        rows_basic(s, offset),
        lines_ok(s, offset),
        next == offset + s.positions.len(),
        next <= usize::MAX,
    ensures
        lines_ok(close_line(s, next), offset),
        rows_basic(close_line(s, next), offset),
{
    let t = close_line(s, next);
    let ps = s.positions;
    if s.open > 0 {
        assert forall|j: int| 0 <= j < ps.len() && #[trigger] ps[j].row < t.cy implies shown_at(t.lines, ps[j]) by {
            if ps[j].row < s.cy {
                assert(t.lines[ps[j].row as int] == s.lines[ps[j].row as int]);
            } else {
                assert(ps[j].index == offset + j);
                assert(ps[j].row == s.cy);
                assert(t.lines[s.cy] == ViewLine::Words { first: (next - s.open) as usize, count: s.open as usize });
            }
        }
        assert forall|j: int|
            0 <= j < ps.len() && opens_page(#[trigger] ps[j].index as int) implies heading_before(
            t.lines,
            ps[j].row as int,
            ps[j].index as int,
        ) by {
            let r = ps[j].row as int;
            assert(heading_before(s.lines, r, ps[j].index as int));
            assert(t.lines[r - 1] == s.lines[r - 1]);
            assert(t.lines[r - 2] == s.lines[r - 2]);
            assert(t.lines[r - 3] == s.lines[r - 3]);
        }
    }
}

proof fn lemma_add_row_lines(s: LayoutState, line: ViewLine, height: int, offset: int)
    requires
        rows_basic(s, offset),
        lines_ok(s, offset),
        s.open == 0,
    ensures
        lines_ok(add_row(s, line, height), offset),
        rows_basic(add_row(s, line, height), offset),
        add_row(s, line, height).open == 0,
        add_row(s, line, height).positions == s.positions,
{
    let t = add_row(s, line, height);
    let ps = s.positions;
    if s.cy < height {
        assert forall|j: int| 0 <= j < ps.len() && #[trigger] ps[j].row < t.cy implies shown_at(t.lines, ps[j]) by {
            assert(ps[j].index == offset + j);
            assert(t.lines[ps[j].row as int] == s.lines[ps[j].row as int]);
        }
        assert forall|j: int|
            0 <= j < ps.len() && opens_page(#[trigger] ps[j].index as int) implies heading_before(
            t.lines,
            ps[j].row as int,
            ps[j].index as int,
        ) by {
            let r = ps[j].row as int;
            assert(heading_before(s.lines, r, ps[j].index as int));
            assert(t.lines[r - 1] == s.lines[r - 1]);
            assert(t.lines[r - 2] == s.lines[r - 2]);
            assert(t.lines[r - 3] == s.lines[r - 3]);
        }
        assert forall|j: int| 0 <= j < ps.len() && #[trigger] ps[j].row == t.cy implies offset + ps.len() - t.open
            <= ps[j].index by {
            assert(ps[j].row <= s.cy);
        }
    }
}

proof fn lemma_page_break_lines(s: LayoutState, i: int, height: int, offset: int)
    requires
        rows_basic(s, offset),
        lines_ok(s, offset),
        i == offset + s.positions.len(),
        i <= usize::MAX,
    ensures
        lines_ok(page_break(s, i, height), offset),
        rows_basic(page_break(s, i, height), offset),
        page_break(s, i, height).cy < height ==> heading_before(
            page_break(s, i, height).lines,
            page_break(s, i, height).cy,
            i,
        ),
{
    let s1 = close_line(s, i);
    lemma_close_line_lines(s, i, offset);
    let s2 = add_row(s1, ViewLine::Blank, height);
    lemma_add_row_lines(s1, ViewLine::Blank, height, offset);
    let m = ViewLine::PageMarker { page: page_of(i) as usize, word: i as usize };
    let s3 = add_row(s2, m, height);
    lemma_add_row_lines(s2, m, height, offset);
    let s4 = add_row(s3, ViewLine::Blank, height);
    lemma_add_row_lines(s3, ViewLine::Blank, height, offset);
    if s4.cy < height {
        assert(s4.lines == s1.lines.push(ViewLine::Blank).push(m).push(ViewLine::Blank));
        assert(s4.cy == s1.cy + 3);
    }
}

proof fn lemma_place_word_lines(s: LayoutState, i: int, w: int, widths: Seq<u16>, width: int, height: int, offset: int)
    requires
        row_state_ok(s, widths, width, height, offset),
        lines_ok(s, offset),
        0 <= offset,
        i == offset + s.positions.len(),
        i < usize::MAX,
        0 <= w,
        s.cy < height,
        height <= 65535,
        opens_page(i) ==> heading_before(s.lines, s.cy, i),
    ensures
        lines_ok(place_word(s, i, w, offset), offset),
{
    let t = place_word(s, i, w, offset);
    let ps = t.positions;
    let k = s.positions.len() as int;
    assert(ps[k].index == i && ps[k].row == s.cy);
    assert forall|j: int| 0 <= j < ps.len() implies #[trigger] ps[j].row <= t.cy by {
        if j < k {
            assert(ps[j] == s.positions[j]);
        }
    }
    assert forall|j: int| 0 <= j < ps.len() && #[trigger] ps[j].row < t.cy implies shown_at(t.lines, ps[j]) by {
        if j < k {
            assert(ps[j] == s.positions[j]);
        }
    }
    assert forall|j: int| 0 <= j < ps.len() && #[trigger] ps[j].row == t.cy implies offset + ps.len() - t.open
        <= ps[j].index by {
        if j < k {
            assert(ps[j] == s.positions[j]);
        }
    }
    assert forall|j: int|
        0 <= j < ps.len() && opens_page(#[trigger] ps[j].index as int) implies heading_before(
        t.lines,
        ps[j].row as int,
        ps[j].index as int,
    ) by {
        if j < k {
            assert(ps[j] == s.positions[j]);
        }
    }
}

proof fn lemma_layout_lines(widths: Seq<u16>, width: int, height: int, offset: int, n: int)
    requires
        0 <= width <= 65535,
        0 <= height <= 65535,
        0 <= offset <= n <= widths.len(),
        widths.len() <= usize::MAX,
    ensures
        lines_ok(layout_upto(widths, width, height, offset, n), offset),
    decreases n - offset,
{
    if n > offset {
        lemma_layout_lines(widths, width, height, offset, n - 1);
        lemma_layout_inv(widths, width, height, offset, n - 1);
        let s = layout_upto(widths, width, height, offset, n - 1);
        let i = n - 1;
        let w = widths[i] as int;
        if !(s.stopped || s.cy >= height) {
            let s1 = if opens_page(i) { page_break(s, i, height) } else { s };
            if opens_page(i) {
                lemma_page_break_ok(s, i, widths, width, height, offset);
                lemma_page_break_lines(s, i, height, offset);
            }
            if s1.cy < height {
                let s2 = if s1.cx + w > width && s1.cx > 0 { close_line(s1, i) } else { s1 };
                if s1.cx + w > width && s1.cx > 0 {
                    lemma_close_line_ok(s1, i, widths, width, height, offset);
                    lemma_close_line_lines(s1, i, offset);
                }
                if s2.cy < height {
                    lemma_place_word_lines(s2, i, w, widths, width, height, offset);
                }
            }
        }
    }
}

/// Every drawn word stands in the row of words drawn for it, and a word
/// that opens a page is drawn below a blank row, the page's heading and
/// another blank row.
pub proof fn drawn_words_are_shown(widths: Seq<u16>, width: u16, height: u16, offset: usize)
    requires
        widths.len() <= usize::MAX,
    ensures
        ({
            let s = layout_of(widths, width as int, height as int, offset as int);
            let lines = final_lines(s, offset + s.positions.len(), height as int);
            forall|j: int|
                0 <= j < s.positions.len() ==> {
                    &&& shown_at(lines, #[trigger] s.positions[j])
                    &&& opens_page(s.positions[j].index as int) ==> heading_before(
                        lines,
                        s.positions[j].row as int,
                        s.positions[j].index as int,
                    )
                }
        }),
{
    let n = layout_end(offset as int, widths.len() as int);
    let s = layout_of(widths, width as int, height as int, offset as int);
    if offset as int <= widths.len() {
        lemma_layout_inv(widths, width as int, height as int, offset as int, n);
        lemma_layout_lines(widths, width as int, height as int, offset as int, n);
        let end = offset + s.positions.len();
        let lines = final_lines(s, end, height as int);
        assert forall|j: int| 0 <= j < s.positions.len() implies {
            &&& shown_at(lines, #[trigger] s.positions[j])
            &&& opens_page(s.positions[j].index as int) ==> heading_before(
                lines,
                s.positions[j].row as int,
                s.positions[j].index as int,
            )
        } by {
            let p = s.positions[j];
            assert(p.index == offset + j);
            assert(p.row < height);
            if p.row < s.cy {
                assert(lines[p.row as int] == s.lines[p.row as int]);
            }
            if opens_page(p.index as int) {
                let r = p.row as int;
                assert(lines[r - 1] == s.lines[r - 1]);
                assert(lines[r - 2] == s.lines[r - 2]);
                assert(lines[r - 3] == s.lines[r - 3]);
            }
        }
    } else {
        assert(layout_upto(widths, width as int, height as int, offset as int, n) == initial_layout());
    }
}

/// The words placed never become fewer as more words are considered.
proof fn lemma_positions_grow(widths: Seq<u16>, width: int, height: int, offset: int, n: int, m: int)
    requires
        offset <= n <= m,
    ensures
        layout_upto(widths, width, height, offset, n).positions.len() <= layout_upto(
            widths,
            width,
            height,
            offset,
            m,
        ).positions.len(),
    decreases m - n,
{
    if n < m {
        lemma_positions_grow(widths, width, height, offset, n, m - 1);
        let s = layout_upto(widths, width, height, offset, m - 1);
        let i = m - 1;
        let w = widths[i] as int;
        if !(s.stopped || s.cy >= height) {
            let s1 = if i > 0 && i % (WORDS_PER_PAGE as int) == 0 { page_break(s, i, height) } else { s };
            assert(s1.positions == s.positions);
            let s2 = if s1.cx + w > width && s1.cx > 0 { close_line(s1, i) } else { s1 };
            assert(s2.positions == s.positions);
        }
    }
}

/// When the view must scroll, it moves forward and not past the cursor;
/// as `clamp_view` then keeps it, the view reaches a frame that reads
/// events after finitely many scrolls.
pub proof fn scrolling_moves_toward_cursor(widths: Seq<u16>, width: u16, height: u16, offset: usize, cursor: usize)
    requires
        widths.len() <= usize::MAX,
        needs_scroll(layout_of(widths, width as int, height as int, offset as int), offset as int, cursor as int, widths.len() as int),
    ensures
        ({
            let t = scroll_target(layout_of(widths, width as int, height as int, offset as int), offset as int);
            offset < t <= cursor
        }),
{
    let n = layout_end(offset as int, widths.len() as int);
    lemma_layout_lines(widths, width as int, height as int, offset as int, n);
}

/// A view of at least four rows draws at least one word when words
/// remain from its first word on.
proof fn lemma_first_word_drawn(widths: Seq<u16>, width: u16, height: u16, offset: usize)
    requires
        height >= 4,
        offset < widths.len(),
    ensures
        layout_of(widths, width as int, height as int, offset as int).positions.len() > 0,
{
    let o = offset as int;
    assert(layout_upto(widths, width as int, height as int, o, o) == initial_layout());
    assert(layout_upto(widths, width as int, height as int, o, o + 1).positions.len() == 1);
    lemma_positions_grow(widths, width as int, height as int, o, o + 1, widths.len() as int);
}

/// The words a view draws lie inside the document when the view starts
/// inside it or just past its end.
pub proof fn drawn_words_are_in_document(widths: Seq<u16>, width: u16, height: u16, offset: usize)
    requires
        widths.len() <= usize::MAX,
        offset <= widths.len(),
    ensures
        ({
            let s = layout_of(widths, width as int, height as int, offset as int);
            &&& offset + s.positions.len() <= widths.len()
            &&& forall|j: int| 0 <= j < s.positions.len() ==> #[trigger] s.positions[j].index < widths.len()
        }),
{
    let n = layout_end(offset as int, widths.len() as int);
    lemma_layout_inv(widths, width as int, height as int, offset as int, n);
}

/// When a view of at least four rows that starts at or before the cursor
/// does not need to scroll, the cursor's word is drawn, in the row of
/// words drawn for it; so events are read only with the cursor in view.
pub proof fn cursor_is_drawn_when_events_are_read(widths: Seq<u16>, width: u16, height: u16, offset: usize, cursor: usize)
    requires
        widths.len() <= usize::MAX,
        height >= 4,
        offset <= cursor < widths.len(),
        !needs_scroll(layout_of(widths, width as int, height as int, offset as int), offset as int, cursor as int, widths.len() as int),
    ensures
        ({
            let s = layout_of(widths, width as int, height as int, offset as int);
            let j = cursor - offset;
            &&& cursor < offset + s.positions.len()
            &&& s.positions[j].index == cursor
            &&& shown_at(final_lines(s, offset + s.positions.len(), height as int), s.positions[j])
        }),
{
    lemma_first_word_drawn(widths, width, height, offset);
    layout_fits_view(widths, width, height, offset);
    drawn_words_are_shown(widths, width, height, offset);
    let s = layout_of(widths, width as int, height as int, offset as int);
    assert(s.positions[cursor - offset] == s.positions[cursor - offset]);
}

/// Whether a click at column `col` of row `row` falls on the word drawn at `p`.
pub open spec fn hits(p: WordPosition, col: int, row: int) -> bool {
    p.row == row && p.col_start <= col <= p.col_end
}

/// The first of the places from `k` on that a click at (`col`, `row`) falls on.
pub open spec fn first_hit_from(ps: Seq<WordPosition>, col: int, row: int, k: int) -> Option<int>
    decreases ps.len() - k,
{
    if k < 0 || k >= ps.len() {
        None
    } else if hits(ps[k], col, row) {
        Some(k)
    } else {
        first_hit_from(ps, col, row, k + 1)
    }
}

/// The word, if any, that a click at column `col` of row `row` of the view
/// selects: the first drawn word whose columns, its trailing space
/// included, hold the click.
pub fn word_at(positions: &Vec<WordPosition>, col: u16, row: u16) -> (r: Option<usize>)
    ensures
        r == match first_hit_from(positions@, col as int, row as int, 0) {
            Some(j) => Some(positions@[j].index),
            None => None,
        },
{
    let n = positions.len();
    let mut k: usize = 0;
    while k < n
        invariant
            n == positions@.len(),
            k <= n,
            first_hit_from(positions@, col as int, row as int, 0) == first_hit_from(
                positions@,
                col as int,
                row as int,
                k as int,
            ),
        decreases n - k,
    {
        let p = positions[k];
        if p.row == row as u32 && p.col_start <= col as u32 && col as u32 <= p.col_end {
            return Some(p.index);
        }
        k = k + 1;
    }
    None
}

proof fn lemma_earlier_word_before(ps: Seq<WordPosition>, widths: Seq<u16>, width: int, height: int, offset: int, i: int, j: int)
    requires
        well_placed(ps, widths, width, height, offset),
        0 <= i < j < ps.len(),
    ensures
        ps[i].row < ps[j].row || (ps[i].row == ps[j].row && ps[i].col_end < ps[j].col_start),
    decreases j - i,
{
    assert(ps[j].col_end == ps[j].col_start + widths[offset + j]);
    assert(ps[j - 1].col_end == ps[j - 1].col_start + widths[offset + j - 1]);
    if i < j - 1 {
        lemma_earlier_word_before(ps, widths, width, height, offset, i, j - 1);
    }
}

proof fn lemma_first_hit_is(ps: Seq<WordPosition>, col: int, row: int, k: int, j: int)
    requires
        0 <= k <= j < ps.len(),
        hits(ps[j], col, row),
        forall|i: int| k <= i < j ==> !hits(#[trigger] ps[i], col, row),
    ensures
        first_hit_from(ps, col, row, k) == Some(j),
    decreases j - k,
{
    if k < j {
        lemma_first_hit_is(ps, col, row, k + 1, j);
    }
}

/// The view never draws more rows than it has, and the words it draws are
/// well placed (see `well_placed`).
pub proof fn layout_fits_view(widths: Seq<u16>, width: u16, height: u16, offset: usize)
    requires
        widths.len() <= usize::MAX,
    ensures
        ({
            let s = layout_of(widths, width as int, height as int, offset as int);
            &&& well_placed(s.positions, widths, width as int, height as int, offset as int)
            &&& final_lines(s, offset + s.positions.len(), height as int).len() <= height
        }),
{
    let n = layout_end(offset as int, widths.len() as int);
    if offset as int <= widths.len() {
        lemma_layout_inv(widths, width as int, height as int, offset as int, n);
    } else {
        assert(layout_upto(widths, width as int, height as int, offset as int, n) == initial_layout());
    }
}

/// A click anywhere on a drawn word, its trailing space included, selects
/// that word.
pub proof fn click_selects_drawn_word(widths: Seq<u16>, width: u16, height: u16, offset: usize, j: int, col: int)
    requires
        widths.len() <= usize::MAX,
        0 <= j < layout_of(widths, width as int, height as int, offset as int).positions.len(),
        layout_of(widths, width as int, height as int, offset as int).positions[j].col_start <= col,
        col <= layout_of(widths, width as int, height as int, offset as int).positions[j].col_end,
    ensures
        ({
            let ps = layout_of(widths, width as int, height as int, offset as int).positions;
            &&& first_hit_from(ps, col, ps[j].row as int, 0) == Some(j)
            &&& ps[j].index == offset + j
        }),
{
    let ps = layout_of(widths, width as int, height as int, offset as int).positions;
    layout_fits_view(widths, width, height, offset);
    assert forall|i: int| 0 <= i < j implies !hits(#[trigger] ps[i], col, ps[j].row as int) by {
        lemma_earlier_word_before(ps, widths, width as int, height as int, offset as int, i, j);
    }
    lemma_first_hit_is(ps, col, ps[j].row as int, 0, j);
}

/// Where the reader view stands: the first word it shows and the
/// selected word.
#[derive(Clone, Copy, PartialEq, Eq, Debug)]
pub struct ViewerState {
    pub view_offset: usize,
    pub cursor: usize,
}

/// The keys the reader view acts on.
#[derive(Clone, Copy, PartialEq, Eq, Debug)]
pub enum ViewerKey {
    Quit,
    Left,
    Right,
    Up,
    Down,
    PageUp,
    PageDown,
    Other,
}

/// What the reader view can be told between two frames.
#[derive(Clone, Copy, PartialEq, Eq, Debug)]
pub enum ViewerEvent {
    Key(ViewerKey),
    /// A press of the left mouse button at a terminal cell.
    Click { column: u16, row: u16 },
    Nothing,
}

/// The outcome of one event: the new state, whether the view closes, and
/// whether the reading position is to be saved now.
#[derive(Clone, Copy, PartialEq, Eq, Debug)]
pub struct ViewerStep {
    pub state: ViewerState,
    pub quit: bool,
    pub save_progress: bool,
}

/// The inner size of a bordered view in a terminal area of `outer` cells.
pub fn inner_extent(outer: u16) -> (inner: u16)
    ensures
        inner == if outer >= 2 { outer - 2 } else { 0 },
{
    outer.saturating_sub(2)
}

/// Before a frame is drawn, the view moves up to the cursor when the
/// cursor lies above it.
pub fn clamp_view(state: ViewerState) -> (r: ViewerState)
    ensures
        r.cursor == state.cursor,
        r.view_offset == if state.cursor < state.view_offset { state.cursor } else { state.view_offset },
{
    if state.cursor < state.view_offset {
        ViewerState { view_offset: state.cursor, cursor: state.cursor }
    } else {
        state
    }
}

/// After a frame was drawn with `state.view_offset` as its first word:
/// when the cursor lies below the drawn words, the view scrolls to the
/// first word below its top row, and at least one word.
pub fn scroll_after_draw(state: ViewerState, layout: &ViewLayout) -> (r: Option<ViewerState>)
    requires
        layout.needs_scroll_down ==> state.view_offset < usize::MAX,
    ensures
        r == if layout.needs_scroll_down {
            Some(
                ViewerState {
                    view_offset: if layout.next_view_offset <= state.view_offset {
                        (state.view_offset + 1) as usize
                    } else {
                        layout.next_view_offset
                    },
                    cursor: state.cursor,
                },
            )
        } else {
            None
        },
        r matches Some(next) ==> next.view_offset > state.view_offset,
{
    if layout.needs_scroll_down {
        let mut offset = layout.next_view_offset;
        if offset <= state.view_offset {
            offset = state.view_offset + 1;
        }
        Some(ViewerState { view_offset: offset, cursor: state.cursor })
    } else {
        None
    }
}

/// The cursor after a key press, in a document of `total` words.
pub open spec fn cursor_after_key(cursor: int, key: ViewerKey, total: int) -> int {
    let last = if total >= 1 { total - 1 } else { 0 };
    match key {
        ViewerKey::Left => if cursor >= 1 { cursor - 1 } else { 0 },
        ViewerKey::Right => if cursor + 1 < last { cursor + 1 } else { last },
        ViewerKey::Up => if cursor >= 20 { cursor - 20 } else { 0 },
        ViewerKey::Down => if cursor + 20 < last { cursor + 20 } else { last },
        ViewerKey::PageUp => if cursor >= 250 { cursor - 250 } else { 0 },
        ViewerKey::PageDown => if cursor + 250 < last { cursor + 250 } else { last },
        _ => cursor,
    }
}

/// That the keys `back` and `forward` move the cursor `d` words back or
/// forward: from `before` to `after`, never before the first word nor
/// past the last of `total` words.
pub open spec fn key_moves_by(
    event: ViewerEvent,
    back: ViewerKey,
    forward: ViewerKey,
    d: int,
    before: int,
    total: int,
    after: int,
) -> bool {
    &&& event == ViewerEvent::Key(back) && before >= d ==> after == before - d
    &&& event == ViewerEvent::Key(back) && before < d ==> after == 0
    &&& event == ViewerEvent::Key(forward) && before + d < total ==> after == before + d
    &&& event == ViewerEvent::Key(forward) && before + d >= total && total >= 1 ==> after == total - 1
}

/// How far a key moves the cursor forward; the cursor must not pass the
/// largest index.
pub open spec fn forward_step(key: ViewerKey) -> int {
    match key {
        ViewerKey::Right => 1,
        ViewerKey::Down => 20,
        ViewerKey::PageDown => 250,
        _ => 0,
    }
}

/// How far a key moves the cursor forward.
pub fn key_forward_step(key: ViewerKey) -> (n: usize)
    ensures
        n == forward_step(key),
{
    match key {
        ViewerKey::Right => 1,
        ViewerKey::Down => 20,
        ViewerKey::PageDown => 250,
        _ => 0,
    }
}

/// Handles one event of the reader view over a document of `total` words
/// whose last frame drew the words at `positions`: `q` or Esc closes the
/// view, the arrow and page keys move the cursor by one word, a line of
/// twenty words or a page, and a click selects the word under it. In a
/// compiled book closing the view saves the position.
pub fn viewer_event(
    state: ViewerState,
    event: ViewerEvent,
    positions: &Vec<WordPosition>,
    total: usize,
    saves_progress: bool,
) -> (r: ViewerStep)
    requires
        event matches ViewerEvent::Key(k) ==> state.cursor + forward_step(k) <= usize::MAX,
    ensures
        r.state.view_offset == state.view_offset,
        r.quit == (event == ViewerEvent::Key(ViewerKey::Quit)),
        r.save_progress == (r.quit && saves_progress),
        event matches ViewerEvent::Key(k) ==> r.state.cursor == cursor_after_key(state.cursor as int, k, total as int),
        event matches ViewerEvent::Click { column, row } ==> r.state.cursor == match first_hit_from(
            positions@,
            if column >= 1 { column - 1 } else { 0 },
            if row >= 1 { row - 1 } else { 0 },
            0,
        ) {
            Some(j) => positions@[j].index,
            None => state.cursor,
        },
        event == ViewerEvent::Nothing ==> r.state == state,
        state.cursor < total && (forall|j: int| 0 <= j < positions@.len() ==> #[trigger] positions@[j].index < total)
            ==> r.state.cursor < total,
        key_moves_by(event, ViewerKey::Left, ViewerKey::Right, 1, state.cursor as int, total as int, r.state.cursor as int),
        key_moves_by(event, ViewerKey::Up, ViewerKey::Down, 20, state.cursor as int, total as int, r.state.cursor as int),
        key_moves_by(
            event,
            ViewerKey::PageUp,
            ViewerKey::PageDown,
            WORDS_PER_PAGE as int,
            state.cursor as int,
            total as int,
            r.state.cursor as int,
        ),
        event == ViewerEvent::Key(ViewerKey::Other) ==> r.state == state,
{
    let last = total.saturating_sub(1);
    let mut next = state;
    let mut quit = false;
    match event {
        ViewerEvent::Key(key) => match key {
            ViewerKey::Quit => {
                quit = true;
            },
            ViewerKey::Left => {
                next.cursor = state.cursor.saturating_sub(1);
            },
            ViewerKey::Right => {
                next.cursor = if state.cursor + 1 < last { state.cursor + 1 } else { last };
            },
            ViewerKey::Up => {
                next.cursor = state.cursor.saturating_sub(20);
            },
            ViewerKey::Down => {
                next.cursor = if state.cursor + 20 < last { state.cursor + 20 } else { last };
            },
            ViewerKey::PageUp => {
                next.cursor = state.cursor.saturating_sub(250);
            },
            ViewerKey::PageDown => {
                next.cursor = if state.cursor + 250 < last { state.cursor + 250 } else { last };
            },
            ViewerKey::Other => {},
        },
        ViewerEvent::Click { column, row } => {
            let mx = column.saturating_sub(1);
            let my = row.saturating_sub(1);
            match word_at(positions, mx, my) {
                Some(idx) => {
                    proof {
                        lemma_first_hit_in_range(positions@, mx as int, my as int, 0);
                    }
                    next.cursor = idx;
                },
                None => {},
            }
        },
        ViewerEvent::Nothing => {},
    }
    ViewerStep { state: next, quit, save_progress: quit && saves_progress }
}

proof fn lemma_first_hit_in_range(ps: Seq<WordPosition>, col: int, row: int, k: int)
    ensures
        first_hit_from(ps, col, row, k) matches Some(j) ==> k <= j < ps.len(),
    decreases ps.len() - k,
{
    if 0 <= k < ps.len() && !hits(ps[k], col, row) {
        lemma_first_hit_in_range(ps, col, row, k + 1);
    }
}

/// The reader view keeps its cursor on a word of the document: a key
/// moves it to another word, and a click on the drawn words of a view
/// that starts inside the document selects one of them. Hence every
/// position the view saves names an existing word.
pub proof fn viewer_keeps_cursor_in_document(
    widths: Seq<u16>,
    width: u16,
    height: u16,
    offset: usize,
    cursor: int,
    key: ViewerKey,
    col: int,
    row: int,
)
    requires
        widths.len() <= usize::MAX,
        offset <= widths.len(),
        0 <= cursor < widths.len(),
    ensures
        0 <= cursor_after_key(cursor, key, widths.len() as int) < widths.len(),
        ({
            let ps = layout_of(widths, width as int, height as int, offset as int).positions;
            first_hit_from(ps, col, row, 0) matches Some(j) ==> ps[j].index < widths.len()
        }),
{
    drawn_words_are_in_document(widths, width, height, offset);
    let ps = layout_of(widths, width as int, height as int, offset as int).positions;
    lemma_first_hit_in_range(ps, col, row, 0);
}

/// The arrow keys move the cursor one word, Up and Down a line of twenty
/// words, and the page keys one virtual page of `WORDS_PER_PAGE` words,
/// never before the first word nor past the last.
pub proof fn keys_move_the_cursor_by_their_distance(c: int, total: int)
    requires
        0 <= c,
        1 <= total,
    ensures
        c >= 1 ==> cursor_after_key(c, ViewerKey::Left, total) == c - 1,
        c + 1 < total ==> cursor_after_key(c, ViewerKey::Right, total) == c + 1,
        c >= 20 ==> cursor_after_key(c, ViewerKey::Up, total) == c - 20,
        c + 20 < total ==> cursor_after_key(c, ViewerKey::Down, total) == c + 20,
        c >= WORDS_PER_PAGE ==> cursor_after_key(c, ViewerKey::PageUp, total) == c - WORDS_PER_PAGE,
        c < WORDS_PER_PAGE ==> cursor_after_key(c, ViewerKey::PageUp, total) == 0,
        c + WORDS_PER_PAGE < total ==> cursor_after_key(c, ViewerKey::PageDown, total) == c + WORDS_PER_PAGE,
        c + WORDS_PER_PAGE >= total ==> cursor_after_key(c, ViewerKey::PageDown, total) == total - 1,
        c + 1 >= total ==> cursor_after_key(c, ViewerKey::Right, total) == total - 1,
        cursor_after_key(c, ViewerKey::Other, total) == c,
{
}

} // verus!

//! Drawing the sheet into the window's frame: column ids, column names,
//! rows of cells, the tab line of open sheets and the partial redraws that
//! follow a change.
use vstd::prelude::*;

use crate::cells::{Cell, Cells, Column};
use crate::terminal::{Cursor, Request, WinChange, WinInfo};
use crate::text::{push_padded, push_text, to_chars};

verus! {

/// An optional text with `a` put in front of it.
pub open spec fn opt_prepend(a: Seq<char>, o: Option<Seq<char>>) -> Option<Seq<char>> {
    match o {
        Some(t) => Some(a + t),
        None => None,
    }
}

/// A column id centred in its column: ` {:<width$} |` around the id with
/// `width / 2 - 1` spaces on each side.
pub open spec fn id_piece(c: Cell) -> Seq<char> {
    let ws = crate::cells::sat_sub(c.width / 2, 1) as nat;
    let with_ws = crate::text::pad_right(seq![' '], ws) + c.content@ + crate::text::pad_right(seq![' '], ws);
    seq![' '] + crate::text::pad_right(with_ws, c.width as nat) + " |"@
}

/// The column ids from id `i` on, starting at terminal column `start`, as
/// long as they fit before column `lim`; at most up to id `n`. `None` when
/// an id is missing or a position overflows.
pub open spec fn ids_line(ids: Seq<Cell>, i: int, start: int, lim: int, n: int) -> Option<Seq<char>>
    decreases n - i,
{
    if i < 0 || i >= ids.len() || ids[i].width + 3 > usize::MAX || start + ids[i].width + 3
        > usize::MAX {
        None
    } else if start + ids[i].width + 3 >= lim {
        Some(Seq::empty())
    } else if i + 1 < n {
        opt_prepend(id_piece(ids[i]), ids_line(ids, i + 1, start + ids[i].width + 3, lim, n))
    } else {
        Some(id_piece(ids[i]))
    }
}

/// The part of a column name shown: the bytes from the text offset on, as
/// many as the name has characters up to the width; `None` when those bytes
/// do not start and end on characters.
pub open spec fn name_shown(c: Cell) -> Option<Seq<char>> {
    let n = crate::cells::min_usize(c.width, c.content@.len() as usize);
    let b = vstd::utf8::encode_utf8(c.content@);
    if c.text_offset + n > usize::MAX {
        None
    } else if vstd::utf8::is_char_boundary(b, c.text_offset as int)
        && vstd::utf8::is_char_boundary(b.subrange(c.text_offset as int, b.len() as int), n as int) {
        Some(vstd::utf8::decode_utf8(b.subrange(c.text_offset as int, c.text_offset + n)))
    } else {
        None
    }
}

/// A column name in black on white: ` {:<width$} |`.
pub open spec fn name_piece(c: Cell, shown: Seq<char>) -> Seq<char> {
    "\x1b[30;47m "@ + crate::text::pad_right(shown, c.width as nat) + " |\x1b[39;49m"@
}

/// The column names from column `i` on, as `ids_line` lays out the ids.
pub open spec fn names_line(h: Seq<Cell>, i: int, start: int, lim: int, n: int) -> Option<Seq<char>>
    decreases n - i,
{
    if i < 0 || i >= h.len() || h[i].width + 3 > usize::MAX || start + h[i].width + 3
        > usize::MAX {
        None
    } else if start + h[i].width + 3 >= lim {
        Some(Seq::empty())
    } else {
        match name_shown(h[i]) {
            None => None,
            Some(shown) => if i + 1 < n {
                opt_prepend(
                    name_piece(h[i], shown),
                    names_line(h, i + 1, start + h[i].width + 3, lim, n),
                )
            } else {
                Some(name_piece(h[i], shown))
            },
        }
    }
}

} // verus!

verus! {

impl WinInfo {
    fn print_ids_from(&mut self, ids: &Vec<Cell>, i: usize, start: usize, n: usize)
        ensures
            ids_line(ids@, i as int, start as int, old(self).width as int, n as int) matches Some(
                t,
            ) ==> final(self).frame@ == old(self).frame@ + t && *final(self) == (WinInfo {
                frame: final(self).frame,
                ..*old(self)
            }),
            ids_line(ids@, i as int, start as int, old(self).width as int, n as int) is None
                ==> final(self).request is Abort && *final(self) == (WinInfo {
                frame: final(self).frame,
                request: final(self).request,
                ..*old(self)
            }),
        decreases n - i,
    {
        if i >= ids.len() {
            self.abort("index out of bounds");
            return;
        }
        let w = ids[i].width;
        if w > usize::MAX - 3 || start > usize::MAX - (w + 3) {
            self.abort("attempt to add with overflow");
            return;
        }
        let cw = w + 3;
        if start + cw >= self.width {
            return;
        }
        let ws = crate::cells::sat_sub_exec(w / 2, 1);
        let mut with_ws = String::new();
        let sp = to_chars(" ");
        push_padded(&mut with_ws, &sp, ws);
        push_text(&mut with_ws, ids[i].content.as_str());
        push_padded(&mut with_ws, &sp, ws);
        let v = to_chars(with_ws.as_str());
        push_text(&mut self.frame, " ");
        push_padded(&mut self.frame, &v, w);
        push_text(&mut self.frame, " |");
        proof {
            reveal_strlit(" ");
            assert(sp@ == seq![' ']);
        }
        if i + 1 < n {
            self.print_ids_from(ids, i + 1, start + cw, n);
        }
    }

    /// Writes the column ids from id `i` on, starting at terminal column
    /// `start`, as many as fit on the line.
    pub fn print_col_ids(&mut self, cells: &mut Cells, i: usize, start: usize)
        ensures
            *final(cells) == *old(cells),
            ids_line(old(cells).col_ids@, i as int, start as int, old(self).width as int, old(self).num_cols as int)
                matches Some(t) ==> final(self).frame@ == old(self).frame@ + t && *final(self)
                == (WinInfo { frame: final(self).frame, ..*old(self) }),
            ids_line(old(cells).col_ids@, i as int, start as int, old(self).width as int, old(self).num_cols as int)
                is None ==> final(self).request is Abort && *final(self) == (WinInfo {
                frame: final(self).frame,
                request: final(self).request,
                ..*old(self)
            }),
    {
        let n = self.num_cols;
        self.print_ids_from(&cells.col_ids, i, start, n);
    }

    #[verifier::rlimit(40)]
    fn print_names_from(&mut self, h: &Vec<Cell>, i: usize, start: usize, n: usize)
        ensures
            names_line(h@, i as int, start as int, old(self).width as int, n as int) matches Some(t)
                ==> final(self).frame@ == old(self).frame@ + t && *final(self) == (WinInfo {
                frame: final(self).frame,
                ..*old(self)
            }),
            names_line(h@, i as int, start as int, old(self).width as int, n as int) is None
                ==> final(self).request is Abort && *final(self) == (WinInfo {
                frame: final(self).frame,
                request: final(self).request,
                ..*old(self)
            }),
        decreases n - i,
    {
        if i >= h.len() {
            self.abort("index out of bounds");
            return;
        }
        let w = h[i].width;
        if w > usize::MAX - 3 || start > usize::MAX - (w + 3) {
            self.abort("attempt to add with overflow");
            return;
        }
        let cw = w + 3;
        if start + cw >= self.width {
            return;
        }
        let c = &h[i];
        let len = c.len();
        let n_take = if w < len {
            w
        } else {
            len
        };
        if c.text_offset > usize::MAX - n_take {
            self.abort("attempt to add with overflow");
            return;
        }
        let shown = match crate::text::byte_slice(c.content.as_str(), c.text_offset, n_take) {
            Some(t) => t,
            None => {
                self.abort("byte index is not a char boundary");
                return;
            },
        };
        let v = to_chars(shown);
        push_text(&mut self.frame, "\x1b[30;47m ");
        push_padded(&mut self.frame, &v, w);
        push_text(&mut self.frame, " |\x1b[39;49m");
        if i + 1 < n {
            self.print_names_from(h, i + 1, start + cw, n);
        }
    }

    /// Writes the column names from column `i` on, starting at terminal
    /// column `start`, as many as fit on the line.
    pub fn print_header(&mut self, cells: &mut Cells, i: usize, start: usize)
        ensures
            *final(cells) == *old(cells),
            names_line(old(cells).header@, i as int, start as int, old(self).width as int, old(self).num_cols as int)
                matches Some(t) ==> final(self).frame@ == old(self).frame@ + t && *final(self)
                == (WinInfo { frame: final(self).frame, ..*old(self) }),
            names_line(old(cells).header@, i as int, start as int, old(self).width as int, old(self).num_cols as int)
                is None ==> final(self).request is Abort && *final(self) == (WinInfo {
                frame: final(self).frame,
                request: final(self).request,
                ..*old(self)
            }),
    {
        let n = self.num_cols;
        self.print_names_from(&cells.header, i, start, n);
    }
}

} // verus!

verus! {

/// What drawing one row of cells gives: whether every check passed, the
/// text, the index of the first column not drawn, and the text, terminal
/// column and width of the last focused cell drawn.
pub struct RowDraw {
    pub ok: bool,
    pub text: Seq<char>,
    pub end: int,
    pub focus: Option<(Seq<char>, int, usize)>,
}

/// The widths of the columns `cols`.
pub open spec fn widths(cols: Seq<Column>) -> Seq<usize> {
    cols.map_values(|c: Column| c.width)
}

/// The characters of a cell that are shown: from its text offset on, at
/// most its width.
pub open spec fn visible(c: crate::cells::CellModel) -> Seq<char> {
    c.content.subrange(
        c.text_offset as int,
        c.text_offset + crate::cells::min_usize(c.width, (c.content.len() - c.text_offset) as usize),
    )
}

/// A cell drawn in a column `w` characters wide: highlighted when focused.
pub open spec fn cell_piece(c: crate::cells::CellModel, w: usize) -> Seq<char> {
    if c.is_focused {
        "\x1b[7;36;47m "@ + crate::text::pad_right(visible(c), w as nat) + " \x1b[27;39;49m|"@
    } else {
        " "@ + crate::text::pad_right(visible(c), w as nat) + " |"@
    }
}

/// Whether showing cell `c` of row `row` as the focused cell passes its
/// checks on a terminal `w` wide with the view at row `h`: its text is cut on
/// a character and its line can be computed.
pub open spec fn focus_ok(w: int, h: int, c: crate::cells::CellModel, row: int) -> bool {
    !c.is_focused || (vstd::utf8::is_char_boundary(
        vstd::utf8::encode_utf8(c.content),
        crate::cells::min_usize(crate::cells::byte_len(c.content) as usize, w as usize) as int,
    ) && row >= h && row - h + 3 <= usize::MAX)
}

/// A failed draw.
pub open spec fn row_failed(i: int) -> RowDraw {
    RowDraw { ok: false, text: Seq::empty(), end: i, focus: None }
}

/// Drawing row `row` of a sheet whose columns have the widths `ws` and the
/// rows `g`, from column `i` on, starting at terminal column `start`, as long
/// as columns fit before terminal column `w` and at most up to column `n`;
/// `h` is the first row in view.
pub open spec fn row_draw(w: int, n: int, h: int, ws: Seq<usize>, g: Seq<Seq<crate::cells::CellModel>>, i: int, row: int, start: int) -> RowDraw
    decreases n - i,
{
    if i < 0 || i >= ws.len() || i >= g.len() || ws[i] + 3 > usize::MAX || start + ws[i] + 3
        > usize::MAX {
        row_failed(i)
    } else if start + ws[i] + 3 >= w {
        RowDraw { ok: true, text: Seq::empty(), end: i, focus: None }
    } else if row < 0 || row >= g[i].len() {
        row_failed(i)
    } else {
        let c = g[i][row];
        if c.text_offset > c.content.len() || !focus_ok(w, h, c, row) {
            row_failed(i)
        } else {
            let rest = if i + 1 < n {
                row_draw(w, n, h, ws, g, i + 1, row, start + ws[i] + 3)
            } else {
                RowDraw { ok: true, text: Seq::empty(), end: i + 1, focus: None }
            };
            RowDraw {
                ok: rest.ok,
                text: cell_piece(c, ws[i]) + rest.text,
                end: rest.end,
                focus: if rest.focus is Some {
                    rest.focus
                } else if c.is_focused {
                    Some((c.content, start, c.width))
                } else {
                    None
                },
            }
        }
    }
}

/// `row_draw` with the window's width, column count and first row in view.
pub open spec fn row_draw_in(s: WinInfo, cols: Seq<Column>, i: int, row: int, start: int) -> RowDraw {
    row_draw(
        s.width as int,
        s.num_cols as int,
        s.h_offset as int,
        widths(cols),
        cols.map_values(|c: Column| c.rows()),
        i,
        row,
        start,
    )
}

/// The terminal column where column `k` is drawn when drawing starts with
/// column `i0` at `s0`.
pub open spec fn start_at(cols: Seq<Column>, i0: int, s0: int, k: int) -> int
    decreases k - i0,
{
    if k <= i0 {
        s0
    } else {
        start_at(cols, i0, s0, k - 1) + cols[k - 1].width + 3
    }
}

proof fn lemma_start_at_shift(cols: Seq<Column>, i0: int, s0: int, k: int)
    requires
        0 <= i0 < cols.len(),
        i0 + 1 <= k,
    ensures
        start_at(cols, i0 + 1, s0 + cols[i0].width + 3, k) == start_at(cols, i0, s0, k),
    decreases k - i0,
{
    if k > i0 + 1 {
        lemma_start_at_shift(cols, i0, s0, k - 1);
    } else {
        assert(start_at(cols, i0, s0, i0) == s0);
        assert(start_at(cols, i0, s0, i0 + 1) == s0 + cols[i0].width + 3);
    }
}

/// The columns after drawing columns `i0..end` from terminal column `s0`:
/// each drawn column records where it starts.
pub open spec fn starts_set(o: Seq<Column>, f: Seq<Column>, i0: int, end: int, s0: int) -> bool {
    &&& f.len() == o.len()
    &&& forall|k: int|
        0 <= k < o.len() ==> #[trigger] f[k] == if i0 <= k < end {
            Column { start: start_at(o, i0, s0, k) as usize, ..o[k] }
        } else {
            o[k]
        }
}

proof fn lemma_starts_compose(
    cols0: Seq<Column>,
    cols2: Seq<Column>,
    cols3: Seq<Column>,
    i: int,
    start: int,
    end: int,
)
    requires
        0 <= i < cols0.len(),
        i < end,
        starts_set(cols0, cols2, i + 1, end, start + cols0[i].width + 3),
        cols3 == cols2.update(i, Column { start: start as usize, ..cols2[i] }),
        start <= usize::MAX,
    ensures
        starts_set(cols0, cols3, i, end, start),
{
    assert forall|k: int| 0 <= k < cols0.len() implies #[trigger] cols3[k] == if i <= k < end {
        Column { start: start_at(cols0, i, start, k) as usize, ..cols0[k] }
    } else {
        cols0[k]
    } by {
        if k == i {
            assert(cols2[k] == cols0[k]);
            assert(start_at(cols0, i, start, k) == start);
        } else if i < k < end {
            assert(cols2[k] == Column {
                start: start_at(cols0, i + 1, start + cols0[i].width + 3, k) as usize,
                ..cols0[k]
            });
            lemma_start_at_shift(cols0, i, start, k);
        } else {
            assert(cols2[k] == cols0[k]);
        }
    }
}

proof fn lemma_row_draw_end(w: int, n: int, h: int, ws: Seq<usize>, g: Seq<Seq<crate::cells::CellModel>>, i: int, row: int, start: int)
    ensures
        row_draw(w, n, h, ws, g, i, row, start).end >= i,
    decreases n - i,
{
    if 0 <= i < ws.len() && i + 1 < n {
        lemma_row_draw_end(w, n, h, ws, g, i + 1, row, start + ws[i] + 3);
    }
}

/// The columns differ from `o` at most in where they start.
pub open spec fn only_starts(o: Seq<Column>, f: Seq<Column>) -> bool {
    &&& f.len() == o.len()
    &&& forall|k: int| 0 <= k < o.len() ==> #[trigger] f[k] == Column { start: f[k].start, ..o[k] }
}

/// The window after a row draw `d` of row `row`: the focused cell's text and
/// cursor come from the last focused cell drawn.
pub open spec fn row_focus_set(o: WinInfo, f: WinInfo, d: RowDraw, row: int) -> bool {
    match d.focus {
        Some(t) => {
            &&& vstd::utf8::encode_utf8(f.focused_content@) == vstd::utf8::encode_utf8(t.0).take(
                crate::cells::min_usize(crate::cells::byte_len(t.0) as usize, o.width) as int,
            )
            &&& f.cursor == Cursor {
                line: (row - o.h_offset + 3) as usize,
                col: (t.1 + 1) as usize,
                limit: t.2,
                ..o.cursor
            }
        },
        None => f.focused_content == o.focused_content && f.cursor == o.cursor,
    }
}

/// Appends `cell_piece` of `c` drawn `w` characters wide.
fn push_cell_piece(out: &mut String, c: &Cell, w: usize)
    requires
        c.text_offset <= c.content@.len(),
    ensures
        final(out)@ == old(out)@ + cell_piece(crate::cells::cell_model(*c), w),
{
    let len = c.len();
    let take = if c.width < len - c.text_offset {
        c.width
    } else {
        len - c.text_offset
    };
    let chars = to_chars(c.content.as_str());
    let mut vis = Vec::<char>::new();
    let mut k = c.text_offset;
    let stop = c.text_offset + take;
    while k < stop
        invariant
            stop == c.text_offset + take,
            c.text_offset <= k <= c.text_offset + take <= chars@.len(),
            vis@ == chars@.subrange(c.text_offset as int, k as int),
        decreases stop - k,
    {
        vis.push(chars[k]);
        k += 1;
        assert(chars@.subrange(c.text_offset as int, k as int) == chars@.subrange(
            c.text_offset as int,
            k - 1,
        ).push(chars@[k - 1]));
    }
    if c.is_focused {
        push_text(out, "\x1b[7;36;47m ");
        push_padded(out, &vis, w);
        push_text(out, " \x1b[27;39;49m|");
    } else {
        push_text(out, " ");
        push_padded(out, &vis, w);
        push_text(out, " |");
    }
}

proof fn lemma_row_draw_end_max(w: int, n: int, h: int, ws: Seq<usize>, g: Seq<Seq<crate::cells::CellModel>>, i: int, row: int, start: int)
    ensures
        row_draw(w, n, h, ws, g, i, row, start).end <= if i < n { n } else { i + 1 },
    decreases n - i,
{
    if 0 <= i < ws.len() && i + 1 < n {
        lemma_row_draw_end_max(w, n, h, ws, g, i + 1, row, start + ws[i] + 3);
    }
}

proof fn lemma_screen_rows_end_max(g: Geo, ws: Seq<usize>, rows: Seq<Seq<crate::cells::CellModel>>, line: int, end: int)
    ensures
        screen_rows(g, ws, rows, line, end).end <= crate::cells::max_int(
            end,
            crate::cells::max_int(g.w_offset + 1, g.num_cols),
        ),
    decreases g.height - 1 - line,
{
    if line < g.height - 1 {
        let row = line - 3 + g.h_offset;
        let d = row_draw(g.width, g.num_cols, g.h_offset, ws, rows, g.w_offset, row, 6);
        lemma_row_draw_end_max(g.width, g.num_cols, g.h_offset, ws, rows, g.w_offset, row, 6);
        lemma_screen_rows_end_max(g, ws, rows, line + 1, end);
        lemma_screen_rows_end_max(g, ws, rows, line + 1, d.end);
    }
}

impl WinInfo {
    #[verifier::rlimit(60)]
    fn print_row_from(&mut self, cells: &mut Cells, i: usize, row: usize, start: usize) -> (end: usize)
        requires
            old(cells).wf(),
        ensures
            *final(self) == (WinInfo {
                frame: final(self).frame,
                focused_content: final(self).focused_content,
                cursor: final(self).cursor,
                request: final(self).request,
                ..*old(self)
            }),
            final(cells).wf(),
            only_starts(old(cells).columns@, final(cells).columns@),
            *final(cells) == (Cells { columns: final(cells).columns, ..*old(cells) }),
            ({
                let d = row_draw_in(*old(self), old(cells).columns@, i as int, row as int, start as int);
                if d.ok {
                    &&& final(self).frame@ == old(self).frame@ + d.text
                    &&& end == d.end
                    &&& starts_set(old(cells).columns@, final(cells).columns@, i as int, d.end, start as int)
                    &&& row_focus_set(*old(self), *final(self), d, row as int)
                    &&& *final(self) == (WinInfo {
                        frame: final(self).frame,
                        focused_content: final(self).focused_content,
                        cursor: final(self).cursor,
                        ..*old(self)
                    })
                } else {
                    final(self).request is Abort
                }
            }),
        decreases old(self).num_cols - i,
    {
        if i >= cells.columns.len() {
            self.abort("index out of bounds");
            return i;
        }
        let w = cells.columns[i].width;
        if w > usize::MAX - 3 || start > usize::MAX - (w + 3) {
            self.abort("attempt to add with overflow");
            return i;
        }
        let cw = w + 3;
        if start + cw >= self.width {
            return i;
        }
        if row >= cells.columns[i].indices.len() {
            self.abort("index out of bounds");
            return i;
        }
        let ghost s0 = *self;
        let ghost cols0 = cells.columns@;
        let idx = cells.columns[i].indices[row];
        assert(cells.columns@[i as int].wf());
        let c = &cells.columns[i].cells[idx];
        let len = c.len();
        if c.text_offset > len {
            self.abort("attempt to subtract with overflow");
            return i;
        }
        if c.is_focused {
            let blen = c.content.as_str().len();
            let ftake = if blen < self.width {
                blen
            } else {
                self.width
            };
            if !c.content.as_str().is_char_boundary(ftake) {
                self.abort("byte index is not a char boundary");
                return i;
            }
            if row < self.h_offset || row - self.h_offset > usize::MAX - 3 {
                self.abort("attempt to subtract with overflow");
                return i;
            }
            self.set_focused(c.content.as_str());
            self.set_cursor(row - self.h_offset + 3, start + 1, c.width);
        }
        push_cell_piece(&mut self.frame, c, w);
        let ghost c_model = *c;
        let end = if i + 1 < self.num_cols {
            self.print_row_from(cells, i + 1, row, start + cw)
        } else {
            i + 1
        };
        proof {
            assert(cols0.map_values(|c: Column| c.rows())[i as int][row as int] == crate::cells::cell_model(c_model));
            if i + 1 < s0.num_cols {
                assert forall|k: int| i + 1 <= k implies start_at(cols0, i + 1, start + cw, k)
                    == start_at(cols0, i as int, start as int, k) by {
                    lemma_start_at_shift(cols0, i as int, start as int, k);
                }
            }
        }
        let ghost cols2 = cells.columns@;
        cells.get_column(i).set_start(start);
        proof {
            assert(cells.columns@ == cols2.update(i as int, Column { start: start, ..cols2[i as int] }));
            let d = row_draw_in(s0, cols0, i as int, row as int, start as int);
            if d.ok {
                if i + 1 < s0.num_cols {
                    lemma_row_draw_end(
                        s0.width as int,
                        s0.num_cols as int,
                        s0.h_offset as int,
                        widths(cols0),
                        cols0.map_values(|c: Column| c.rows()),
                        i + 1,
                        row as int,
                        (start + cw) as int,
                    );
                }
                if !(i + 1 < s0.num_cols) {
                    assert(cols2 == cols0);
                }
                assert(starts_set(cols0, cols2, i + 1, d.end, (start + cw) as int));
                lemma_starts_compose(cols0, cols2, cells.columns@, i as int, start as int, d.end);
            }
        }
        end
    }

    /// Draws row `row` of the sheet from column `*i` on, starting at terminal
    /// column `start`, as many cells as fit on the line; each drawn column
    /// records where it starts, the focused cell also sets the bottom line's
    /// text and the cursor, and `*i` ends on the first column not drawn.
    pub fn print_row(&mut self, cells: &mut Cells, i: &mut usize, row: usize, start: usize)
        requires
            old(cells).wf(),
        ensures
            *final(self) == (WinInfo {
                frame: final(self).frame,
                focused_content: final(self).focused_content,
                cursor: final(self).cursor,
                request: final(self).request,
                ..*old(self)
            }),
            final(cells).wf(),
            only_starts(old(cells).columns@, final(cells).columns@),
            *final(cells) == (Cells { columns: final(cells).columns, ..*old(cells) }),
            ({
                let d = row_draw_in(*old(self), old(cells).columns@, *old(i) as int, row as int, start as int);
                if d.ok {
                    &&& final(self).frame@ == old(self).frame@ + d.text
                    &&& *final(i) == d.end
                    &&& starts_set(old(cells).columns@, final(cells).columns@, *old(i) as int, d.end, start as int)
                    &&& row_focus_set(*old(self), *final(self), d, row as int)
                    &&& *final(self) == (WinInfo {
                        frame: final(self).frame,
                        focused_content: final(self).focused_content,
                        cursor: final(self).cursor,
                        ..*old(self)
                    })
                } else {
                    final(self).request is Abort
                }
            }),
    {
        let end = self.print_row_from(cells, *i, row, start);
        *i = end;
    }
}

} // verus!

verus! {

/// What drawing the rows of a screen gives: whether every check passed, the
/// text, the index of the first column not drawn on the last row drawn, and
/// the focused cell drawn last with its row.
pub struct RowsDraw {
    pub ok: bool,
    pub text: Seq<char>,
    pub end: int,
    pub focus: Option<(Seq<char>, int, usize, int)>,
}

/// The sizes and view offsets that a draw depends on.
pub struct Geo {
    pub width: int,
    pub height: int,
    pub num_cols: int,
    pub num_rows: int,
    pub w_offset: int,
    pub h_offset: int,
}

pub open spec fn geo(s: WinInfo) -> Geo {
    Geo {
        width: s.width as int,
        height: s.height as int,
        num_cols: s.num_cols as int,
        num_rows: s.num_rows as int,
        w_offset: s.w_offset as int,
        h_offset: s.h_offset as int,
    }
}

/// `\x1b[{l};1H\x1b[2K`: the start of terminal line `l`, cleared.
pub open spec fn clear_line_text(l: nat) -> Seq<char> {
    crate::terminal::goto_text(l, 1) + "\x1b[2K"@
}

/// The row number in front of a row: `{:04X} ` in black on white.
pub open spec fn row_num_text(r: nat) -> Seq<char> {
    "\x1b[30;47m"@ + crate::text::hex4_text(r) + " \x1b[39;49m"@
}

/// Terminal lines `line..height - 1` of a full draw: each shows the sheet row
/// `line - 3 + h_offset` from column `w_offset` on, while such a row exists;
/// `end` is the end of the last row drawn before these lines.
pub open spec fn screen_rows(g: Geo, ws: Seq<usize>, rows: Seq<Seq<crate::cells::CellModel>>, line: int, end: int) -> RowsDraw
    decreases g.height - 1 - line,
{
    if line >= g.height - 1 {
        RowsDraw { ok: true, text: Seq::empty(), end, focus: None }
    } else {
        let head = clear_line_text(line as nat);
        let row = line - 3 + g.h_offset;
        if row >= g.num_rows {
            let rest = screen_rows(g, ws, rows, line + 1, end);
            RowsDraw { text: head + rest.text, ..rest }
        } else {
            let d = row_draw(g.width, g.num_cols, g.h_offset, ws, rows, g.w_offset, row, 6);
            if !d.ok {
                RowsDraw { ok: false, text: Seq::empty(), end, focus: None }
            } else {
                let rest = screen_rows(g, ws, rows, line + 1, d.end);
                RowsDraw {
                    ok: rest.ok,
                    text: head + row_num_text(row as nat) + d.text + rest.text,
                    end: rest.end,
                    focus: if rest.focus is Some {
                        rest.focus
                    } else {
                        match d.focus {
                            Some(t) => Some((t.0, t.1, t.2, row)),
                            None => None,
                        }
                    },
                }
            }
        }
    }
}

/// The window after drawing with focus result `f`: the last focused cell
/// drawn sets the bottom line's text and the cursor.
pub open spec fn focus_set(o: WinInfo, w: WinInfo, f: Option<(Seq<char>, int, usize, int)>) -> bool {
    match f {
        Some(t) => row_focus_set(
            o,
            w,
            RowDraw { ok: true, text: Seq::empty(), end: 0, focus: Some((t.0, t.1, t.2)) },
            t.3,
        ),
        None => w.focused_content == o.focused_content && w.cursor == o.cursor,
    }
}

proof fn lemma_only_starts_views(c0: Seq<Column>, c1: Seq<Column>)
    requires
        only_starts(c0, c1),
    ensures
        widths(c1) == widths(c0),
        c1.map_values(|c: Column| c.rows()) == c0.map_values(|c: Column| c.rows()),
{
    assert forall|k: int| 0 <= k < c0.len() implies #[trigger] c1[k].rows() == c0[k].rows() by {
        assert(c1[k] == Column { start: c1[k].start, ..c0[k] });
    }
    assert(widths(c1) =~= widths(c0));
    assert(c1.map_values(|c: Column| c.rows()) =~= c0.map_values(|c: Column| c.rows()));
}

proof fn lemma_only_starts_trans(a: Seq<Column>, b: Seq<Column>, c: Seq<Column>)
    requires
        only_starts(a, b),
        only_starts(b, c),
    ensures
        only_starts(a, c),
{
    assert forall|k: int| 0 <= k < a.len() implies #[trigger] c[k] == Column { start: c[k].start, ..a[k] } by {
        assert(b[k] == Column { start: b[k].start, ..a[k] });
        assert(c[k] == Column { start: c[k].start, ..b[k] });
    }
}

impl WinInfo {
    /// Whether a step has been stopped.
    pub fn is_aborted(&self) -> (b: bool)
        ensures
            b == (self.request is Abort),
    {
        match self.request {
            Request::Abort(_) => true,
            _ => false,
        }
    }

    #[verifier::rlimit(60)]
    fn draw_lines_from(&mut self, cells: &mut Cells, line: usize, end: usize) -> (e: usize)
        requires
            old(cells).wf(),
            old(self).wf(),
            !(old(self).request is Abort),
            old(self).height >= 1,
            3 <= line,
        ensures
            *final(self) == (WinInfo {
                frame: final(self).frame,
                focused_content: final(self).focused_content,
                cursor: final(self).cursor,
                request: final(self).request,
                ..*old(self)
            }),
            final(cells).wf(),
            only_starts(old(cells).columns@, final(cells).columns@),
            *final(cells) == (Cells { columns: final(cells).columns, ..*old(cells) }),
            ({
                let d = screen_rows(
                    geo(*old(self)),
                    widths(old(cells).columns@),
                    old(cells).grid(),
                    line as int,
                    end as int,
                );
                if d.ok {
                    &&& final(self).frame@ == old(self).frame@ + d.text
                    &&& e == d.end
                    &&& focus_set(*old(self), *final(self), d.focus)
                    &&& *final(self) == (WinInfo {
                        frame: final(self).frame,
                        focused_content: final(self).focused_content,
                        cursor: final(self).cursor,
                        ..*old(self)
                    })
                } else {
                    final(self).request is Abort
                }
            }),
        decreases old(self).height - 1 - line,
    {
        if line >= self.height - 1 {
            return end;
        }
        let ghost s0 = *self;
        let ghost cols0 = cells.columns@;
        crate::terminal::push_goto(&mut self.frame, line, 1);
        push_text(&mut self.frame, "\x1b[2K");
        let row = line - 3 + self.h_offset;
        if row >= self.num_rows {
            let e = self.draw_lines_from(cells, line + 1, end);
            return e;
        }
        push_text(&mut self.frame, "\x1b[30;47m");
        crate::text::push_hex4(&mut self.frame, row);
        push_text(&mut self.frame, " \x1b[39;49m");
        let mut id = self.w_offset;
        self.print_row(cells, &mut id, row, 6);
        if self.is_aborted() {
            return end;
        }
        let ghost s1 = *self;
        let ghost cols1 = cells.columns@;
        let e = self.draw_lines_from(cells, line + 1, id);
        proof {
            lemma_only_starts_views(cols0, cols1);
            lemma_only_starts_trans(cols0, cols1, cells.columns@);
        }
        e
    }
}

} // verus!

verus! {

/// The first line of a full draw: the column ids from the first column in
/// view, after a 4-character margin.
pub open spec fn ids_head_text(s: WinInfo, c: Cells) -> Option<Seq<char>> {
    opt_prepend(
        clear_line_text(1) + "\x1b[4m    |"@,
        ids_line(c.col_ids@, s.w_offset as int, 6, s.width as int, s.num_cols as int),
    )
}

/// The second line of a full draw: `HEAD` and the column names.
pub open spec fn names_head_text(s: WinInfo, c: Cells) -> Option<Seq<char>> {
    opt_prepend(
        clear_line_text(2) + "\x1b[1;30;47mHEAD|\x1b[22;39;49m"@,
        names_line(c.header@, s.w_offset as int, 6, s.width as int, s.num_cols as int),
    )
}

/// The sheet with the focus moved from its focused cell to row `r` of
/// column `c`; the columns may also record new starts.
pub open spec fn refocused(o: Cells, f: Cells, c: usize, r: usize) -> bool {
    &&& f.wf()
    &&& f.w_cell == (c, r)
    &&& f.grid() == crate::cells::set_focus(
        crate::cells::set_focus(o.grid(), o.w_cell.0 as int, o.w_cell.1 as int, false),
        c as int,
        r as int,
        true,
    )
    &&& f.columns@.len() == o.columns@.len()
    &&& widths(f.columns@) == widths(o.columns@)
    &&& forall|k: int|
        0 <= k < o.columns@.len() ==> (#[trigger] f.columns@[k]).padding == o.columns@[k].padding
            && f.columns@[k].indices@ == o.columns@[k].indices@
    &&& f.header == o.header
    &&& f.col_ids == o.col_ids
    &&& f.filename == o.filename
    &&& f.delim == o.delim
    &&& f.changed == o.changed
    &&& f.written == o.written
    &&& f.slices == o.slices
}

/// The sheet unchanged but for the starts its columns record.
pub open spec fn restarted(o: Cells, f: Cells) -> bool {
    &&& only_starts(o.columns@, f.columns@)
    &&& f == (Cells { columns: f.columns, ..o })
}

proof fn lemma_refocused_restarted(o: Cells, m: Cells, f: Cells, c: usize, r: usize)
    requires
        refocused(o, m, c, r),
        restarted(m, f),
    ensures
        refocused(o, f, c, r),
{
    lemma_only_starts_views(m.columns@, f.columns@);
    assert(f.grid() == m.grid()) by {
        assert(f.grid() =~= m.grid()) by {
            assert forall|k: int| 0 <= k < m.columns@.len() implies f.grid()[k] == m.grid()[k] by {
                assert(f.columns@[k] == crate::cells::Column { start: f.columns@[k].start, ..m.columns@[k] });
            }
        }
    }
    assert forall|k: int| 0 <= k < m.columns@.len() implies (#[trigger] f.columns@[k]).wf() by {
        assert(f.columns@[k] == crate::cells::Column { start: f.columns@[k].start, ..m.columns@[k] });
        assert(m.columns@[k].wf());
    }
    assert forall|k: int| 0 <= k < o.columns@.len() implies (#[trigger] f.columns@[k]).padding
        == o.columns@[k].padding && f.columns@[k].indices@ == o.columns@[k].indices@ by {
        assert(f.columns@[k] == crate::cells::Column { start: f.columns@[k].start, ..m.columns@[k] });
        assert(m.columns@[k].padding == o.columns@[k].padding);
    }
}

proof fn lemma_restarted_trans(a: Cells, b: Cells, c: Cells)
    requires
        restarted(a, b),
        restarted(b, c),
    ensures
        restarted(a, c),
{
    lemma_only_starts_trans(a.columns@, b.columns@, c.columns@);
}

/// Whether moving the focus of `c` to row `r` of column `k` passes the
/// index checks: both the focused cell and the new one exist.
pub open spec fn can_refocus(c: Cells, k: usize, r: usize) -> bool {
    c.has_cell(c.w_cell.0, c.w_cell.1) && c.has_cell(k, r)
}

impl WinInfo {
    /// Moves the sheet's focus to row `r` of column `k`; stops the step when
    /// either cell is missing.
    pub fn refocus(&mut self, cells: &mut Cells, k: usize, r: usize)
        requires
            old(cells).wf(),
        ensures
            final(cells).wf(),
            can_refocus(*old(cells), k, r) ==> refocused(*old(cells), *final(cells), k, r) && *final(self)
                == *old(self) && final(cells).col_meta() == old(cells).col_meta(),
            !can_refocus(*old(cells), k, r) ==> *final(cells) == *old(cells) && *final(self) == (
            WinInfo { request: Request::Abort("index out of bounds"), ..*old(self) }),
    {
        let a = cells.w_cell.0;
        let b = cells.w_cell.1;
        if !cells.has_cell_exec(a, b) || !cells.has_cell_exec(k, r) {
            self.abort("index out of bounds");
            return;
        }
        let ghost c0 = *cells;
        cells.set_w_cell(k, r);
        proof {
            assert forall|j: int| 0 <= j < c0.columns@.len() implies (#[trigger] cells.columns@[j]).padding
                == c0.columns@[j].padding && cells.columns@[j].width == c0.columns@[j].width by {
                assert(cells.col_meta()[j] == c0.col_meta()[j]);
            }
            assert(widths(cells.columns@) =~= widths(c0.columns@));
        }
    }

    /// Draws the column ids, the column names and every row in view, then
    /// records how many columns and rows the page holds.
    #[verifier::rlimit(60)]
    fn draw_all_lines(&mut self, cells: &mut Cells)
        requires
            old(cells).wf(),
            old(self).wf(),
            !(old(self).request is Abort),
            old(self).height >= 4,
        ensures
            final(cells).wf(),
            final(self).wf(),
            restarted(*old(cells), *final(cells)),
            match (ids_head_text(*old(self), *old(cells)), names_head_text(*old(self), *old(cells))) {
                (Some(t1), Some(t2)) => {
                    let d = screen_rows(
                        geo(*old(self)),
                        widths(old(cells).columns@),
                        old(cells).grid(),
                        3,
                        old(self).w_offset as int,
                    );
                    if d.ok {
                        &&& final(self).frame@ == old(self).frame@ + t1 + t2 + d.text
                        &&& focus_set(*old(self), *final(self), d.focus)
                        &&& *final(self) == (WinInfo {
                            frame: final(self).frame,
                            focused_content: final(self).focused_content,
                            cursor: final(self).cursor,
                            w_page: crate::cells::sat_sub(d.end as usize, old(self).w_offset),
                            h_page: (old(self).height - 4) as usize,
                            ..*old(self)
                        })
                    } else {
                        final(self).request is Abort
                    }
                },
                _ => final(self).request is Abort,
            },
    {
        let ghost s1 = *self;
        let ghost c1 = *cells;
        crate::terminal::push_goto(&mut self.frame, 1, 1);
        push_text(&mut self.frame, "\x1b[2K");
        push_text(&mut self.frame, "\x1b[4m    |");
        let wo = self.w_offset;
        self.print_col_ids(cells, wo, 6);
        if self.is_aborted() {
            return;
        }
        crate::terminal::push_goto(&mut self.frame, 2, 1);
        push_text(&mut self.frame, "\x1b[2K");
        push_text(&mut self.frame, "\x1b[1;30;47mHEAD|\x1b[22;39;49m");
        self.print_header(cells, wo, 6);
        if self.is_aborted() {
            return;
        }
        let id = self.draw_lines_from(cells, 3, wo);
        if self.is_aborted() {
            return;
        }
        proof {
            lemma_screen_rows_end_max(geo(s1), widths(c1.columns@), c1.grid(), 3, wo as int);
        }
        self.set_w_page(id, wo);
        let h = self.height;
        let ho = self.h_offset;
        self.set_h_page(h - 3 + ho, ho);
    }

    /// Draws the whole screen: the column ids, the column names and every
    /// row in view, after moving the sheet's focus to the window's pointers
    /// (or bringing the row pointer back onto the last row); then records
    /// how many columns and rows the page holds.
    pub fn draw_screen(&mut self, cells: &mut Cells)
        requires
            old(cells).wf(),
            old(self).wf(),
            !(old(self).request is Abort),
        ensures
            screen_drawn(*old(self), *old(cells), *final(self), *final(cells)),
    {
        let ghost s0 = *self;
        let ghost c0 = *cells;
        if self.h_pointer < self.num_rows {
            let (wp, hp) = (self.w_pointer, self.h_pointer);
            self.refocus(cells, wp, hp);
            if self.is_aborted() {
                return;
            }
        } else {
            self.h_pointer = crate::cells::sat_sub_exec(self.num_rows, 1);
        }
        if self.height < 4 {
            self.abort("attempt to subtract with overflow");
            return;
        }
        let ghost c1 = *cells;
        self.draw_all_lines(cells);
        proof {
            lemma_only_starts_views(c1.columns@, cells.columns@);
            lemma_restarted_grid(c1, *cells);
            if s0.h_pointer < s0.num_rows {
                lemma_refocused_restarted(c0, c1, *cells, s0.w_pointer, s0.h_pointer);
            }
        }
    }
}

/// What `draw_screen` does: the window `s0w` over the sheet `c0` becomes
/// `s1w` over `c1`.
pub open spec fn screen_drawn(s0w: WinInfo, c0: Cells, s1w: WinInfo, c1: Cells) -> bool {
    &&& c1.wf()
    &&& s1w.wf()
    &&& ({
        let s0 = s0w;
        let a = s0.h_pointer < s0.num_rows;
        let s1 = if a {
            s0
        } else {
            WinInfo { h_pointer: crate::cells::sat_sub(s0.num_rows, 1), ..s0 }
        };
        if a && !can_refocus(c0, s0.w_pointer, s0.h_pointer) {
            s1w.request is Abort
        } else if s0.height < 4 {
            s1w.request is Abort
        } else {
            &&& (if a {
                refocused(c0, c1, s0.w_pointer, s0.h_pointer)
            } else {
                restarted(c0, c1)
            })
            &&& match (ids_head_text(s1, c1), names_head_text(s1, c1)) {
                (Some(t1), Some(t2)) => {
                    let d = screen_rows(
                        geo(s1),
                        widths(c1.columns@),
                        c1.grid(),
                        3,
                        s1.w_offset as int,
                    );
                    if d.ok {
                        &&& s1w.frame@ == s0.frame@ + t1 + t2 + d.text
                        &&& focus_set(s1, s1w, d.focus)
                        &&& s1w == (WinInfo {
                            frame: s1w.frame,
                            focused_content: s1w.focused_content,
                            cursor: s1w.cursor,
                            w_page: crate::cells::sat_sub(d.end as usize, s1.w_offset),
                            h_page: (s0.height - 4) as usize,
                            ..s1
                        })
                    } else {
                        s1w.request is Abort
                    }
                },
                _ => s1w.request is Abort,
            }
        }
    })
}

/// Recording starts leaves a sheet's rows as they were.
proof fn lemma_restarted_grid(a: Cells, b: Cells)
    requires
        restarted(a, b),
    ensures
        b.grid() == a.grid(),
        widths(b.columns@) == widths(a.columns@),
        b.wf() == a.wf(),
{
    lemma_only_starts_views(a.columns@, b.columns@);
    assert(b.grid() =~= a.grid());
    assert forall|k: int| 0 <= k < a.columns@.len() implies b.columns@[k].wf() == a.columns@[k].wf() by {
        assert(b.columns@[k] == crate::cells::Column { start: b.columns@[k].start, ..a.columns@[k] });
    }
}

} // verus!

verus! {

/// `\x1b[{l};{c}H\x1b[K\x1b[4m`: moves to line `l`, column `c` and clears the
/// rest of the line.
pub open spec fn clear_from_text(l: nat, c: nat) -> Seq<char> {
    crate::terminal::goto_text(l, c) + "\x1b[K\x1b[4m"@
}

/// Terminal lines `line..lim` of a partial draw: line `l` shows sheet row
/// `l - 3 + h_offset` from column `i0` on at terminal column `start`; with
/// `numbered` each line starts cleared with the row number (and `start` is
/// 6), else it is cleared from `start` on.
pub open spec fn lines_draw(
    g: Geo,
    ws: Seq<usize>,
    rows: Seq<Seq<crate::cells::CellModel>>,
    numbered: bool,
    i0: int,
    start: int,
    line: int,
    lim: int,
    end: int,
) -> RowsDraw
    decreases lim - line,
{
    if line >= lim {
        RowsDraw { ok: true, text: Seq::empty(), end, focus: None }
    } else {
        let row = line - 3 + g.h_offset;
        let head = if numbered {
            clear_line_text(line as nat) + row_num_text(row as nat)
        } else {
            clear_from_text(line as nat, start as nat)
        };
        let d = row_draw(g.width, g.num_cols, g.h_offset, ws, rows, i0, row, start);
        if !d.ok {
            RowsDraw { ok: false, text: Seq::empty(), end, focus: None }
        } else {
            let rest = lines_draw(g, ws, rows, numbered, i0, start, line + 1, lim, d.end);
            RowsDraw {
                ok: rest.ok,
                text: head + d.text + rest.text,
                end: rest.end,
                focus: if rest.focus is Some {
                    rest.focus
                } else {
                    match d.focus {
                        Some(t) => Some((t.0, t.1, t.2, row)),
                        None => None,
                    }
                },
            }
        }
    }
}

proof fn lemma_lines_draw_end_max(
    g: Geo,
    ws: Seq<usize>,
    rows: Seq<Seq<crate::cells::CellModel>>,
    numbered: bool,
    i0: int,
    start: int,
    line: int,
    lim: int,
    end: int,
)
    ensures
        lines_draw(g, ws, rows, numbered, i0, start, line, lim, end).end <= crate::cells::max_int(
            end,
            crate::cells::max_int(i0 + 1, g.num_cols),
        ),
    decreases lim - line,
{
    if line < lim {
        let row = line - 3 + g.h_offset;
        let d = row_draw(g.width, g.num_cols, g.h_offset, ws, rows, i0, row, start);
        lemma_row_draw_end_max(g.width, g.num_cols, g.h_offset, ws, rows, i0, row, start);
        lemma_lines_draw_end_max(g, ws, rows, numbered, i0, start, line + 1, lim, d.end);
    }
}

impl WinInfo {
    #[verifier::rlimit(100)]
    fn draw_lines_part(
        &mut self,
        cells: &mut Cells,
        numbered: bool,
        i0: usize,
        start: usize,
        line: usize,
        lim: usize,
        end: usize,
    ) -> (e: usize)
        requires
            old(cells).wf(),
            old(self).wf(),
            !(old(self).request is Abort),
            3 <= line,
            lim <= 65536,
        ensures
            final(cells).wf(),
            restarted(*old(cells), *final(cells)),
            *final(self) == (WinInfo {
                frame: final(self).frame,
                focused_content: final(self).focused_content,
                cursor: final(self).cursor,
                request: final(self).request,
                ..*old(self)
            }),
            ({
                let d = lines_draw(
                    geo(*old(self)),
                    widths(old(cells).columns@),
                    old(cells).grid(),
                    numbered,
                    i0 as int,
                    start as int,
                    line as int,
                    lim as int,
                    end as int,
                );
                if d.ok {
                    &&& final(self).frame@ == old(self).frame@ + d.text
                    &&& e == d.end
                    &&& focus_set(*old(self), *final(self), d.focus)
                    &&& final(self).request == old(self).request
                } else {
                    final(self).request is Abort
                }
            }),
        decreases lim - line,
    {
        if line >= lim {
            return end;
        }
        let row = line - 3 + self.h_offset;
        if numbered {
            crate::terminal::push_goto(&mut self.frame, line, 1);
            push_text(&mut self.frame, "\x1b[2K");
            push_text(&mut self.frame, "\x1b[30;47m");
            crate::text::push_hex4(&mut self.frame, row);
            push_text(&mut self.frame, " \x1b[39;49m");
        } else {
            crate::terminal::push_goto(&mut self.frame, line, start);
            push_text(&mut self.frame, "\x1b[K\x1b[4m");
        }
        let ghost c0 = *cells;
        let mut id = i0;
        self.print_row(cells, &mut id, row, start);
        if self.is_aborted() {
            return end;
        }
        let ghost c1 = *cells;
        let e = self.draw_lines_part(cells, numbered, i0, start, line + 1, lim, id);
        proof {
            lemma_restarted_grid(c0, c1);
            lemma_restarted_trans(c0, c1, *cells);
        }
        e
    }
}

/// What `draw_from_column` does: the focused column and every column after
/// it are drawn again from where the focused column starts, with their ids,
/// names and the rows in view.
pub open spec fn from_column_drawn(s0: WinInfo, c0: Cells, s1: WinInfo, c1: Cells) -> bool {
    &&& c1.wf()
    &&& s1.wf()
    &&& if s0.w_pointer >= c0.columns@.len() || s0.height < 1 || s0.num_rows < s0.h_offset {
        s1.request is Abort
    } else {
        let col = s0.w_pointer as int;
        let start = c0.columns@[col].start as int;
        let lim = crate::cells::min_usize(
            (s0.height - 1) as usize,
            (s0.num_rows - s0.h_offset + 3) as usize,
        ) as int;
        let t1 = if 1 < lim {
            opt_prepend(
                clear_from_text(1, start as nat),
                ids_line(c0.col_ids@, col, start, s0.width as int, s0.num_cols as int),
            )
        } else {
            Some(Seq::empty())
        };
        let t2 = if 2 < lim {
            opt_prepend(
                clear_from_text(2, start as nat),
                names_line(c0.header@, col, start, s0.width as int, s0.num_cols as int),
            )
        } else {
            Some(Seq::empty())
        };
        &&& restarted(c0, c1)
        &&& match (t1, t2) {
            (Some(a), Some(b)) => {
                let d = lines_draw(geo(s0), widths(c0.columns@), c0.grid(), false, col, start, 3, lim, col);
                if d.ok {
                    &&& s1.frame@ == s0.frame@ + a + b + d.text
                    &&& focus_set(s0, s1, d.focus)
                    &&& s1 == (WinInfo {
                        frame: s1.frame,
                        focused_content: s1.focused_content,
                        cursor: s1.cursor,
                        w_page: crate::cells::sat_sub(d.end as usize, s0.w_offset),
                        ..s0
                    })
                } else {
                    s1.request is Abort
                }
            },
            _ => s1.request is Abort,
        }
    }
}

impl WinInfo {
    /// Draws the focused column and the columns after it again, from where
    /// the focused column starts: ids, names and the rows in view.
    #[verifier::rlimit(60)]
    pub fn draw_from_column(&mut self, cells: &mut Cells)
        requires
            old(cells).wf(),
            old(self).wf(),
            !(old(self).request is Abort),
        ensures
            from_column_drawn(*old(self), *old(cells), *final(self), *final(cells)),
    {
        let col_id = self.w_pointer;
        if col_id >= cells.columns.len() || self.height < 1 || self.num_rows < self.h_offset {
            self.abort("index out of bounds");
            return;
        }
        let ghost c0 = *cells;
        let ghost f0 = self.frame@;
        let start = cells.columns[col_id].start;
        let a = self.height - 1;
        let b = self.num_rows - self.h_offset + 3;
        let lim = if a < b {
            a
        } else {
            b
        };
        if 1 < lim {
            crate::terminal::push_goto(&mut self.frame, 1, start);
            push_text(&mut self.frame, "\x1b[K\x1b[4m");
            self.print_col_ids(cells, col_id, start);
            if self.is_aborted() {
                return;
            }
            proof {
                let t = ids_line(c0.col_ids@, col_id as int, start as int, self.width as int, self.num_cols as int);
                assert(t is Some);
                assert(self.frame@ =~= f0 + (clear_from_text(1, start as nat) + t->0));
            }
        }
        let ghost f1 = self.frame@;
        if 2 < lim {
            crate::terminal::push_goto(&mut self.frame, 2, start);
            push_text(&mut self.frame, "\x1b[K\x1b[4m");
            self.print_header(cells, col_id, start);
            if self.is_aborted() {
                return;
            }
            proof {
                let t = names_line(c0.header@, col_id as int, start as int, self.width as int, self.num_cols as int);
                assert(t is Some);
                assert(self.frame@ =~= f1 + (clear_from_text(2, start as nat) + t->0));
            }
        }
        let ghost f2 = self.frame@;
        let c = self.draw_lines_part(cells, false, col_id, start, 3, lim, col_id);
        if self.is_aborted() {
            return;
        }
        proof {
            if !(1 < lim) {
                assert(f1 =~= f0 + Seq::<char>::empty());
            }
            if !(2 < lim) {
                assert(f2 =~= f1 + Seq::<char>::empty());
            }
        }
        proof {
            lemma_lines_draw_end_max(geo(*old(self)), widths(c0.columns@), c0.grid(), false, col_id as int, start as int, 3, lim as int, col_id as int);
        }
        let wo = self.w_offset;
        self.set_w_page(c, wo);
        proof {
            lemma_restarted_grid(c0, *cells);
        }
    }
}

} // verus!

verus! {

/// The focus result of a row draw of row `row`.
pub open spec fn row_focus(d: RowDraw, row: int) -> Option<(Seq<char>, int, usize, int)> {
    match d.focus {
        Some(t) => Some((t.0, t.1, t.2, row)),
        None => None,
    }
}

/// What `draw_rows` does: the focus moves to the window's pointers and the
/// rows from the higher of the old and new focused rows down to the end of
/// the view are drawn again, each with its row number.
pub open spec fn rows_drawn(s0: WinInfo, c0: Cells, s1: WinInfo, c1: Cells) -> bool {
    let prev = c0.w_cell.1;
    let st = crate::cells::min_usize(prev, s0.h_pointer);
    &&& c1.wf()
    &&& s1.wf()
    &&& if !can_refocus(c0, s0.w_pointer, s0.h_pointer) || st < s0.h_offset || st - s0.h_offset + 3
        > usize::MAX || s0.height < 1 || s0.num_rows < s0.h_offset {
        s1.request is Abort
    } else {
        let term = st - s0.h_offset + 3;
        let lim = crate::cells::min_usize(
            (s0.height - 1) as usize,
            (s0.num_rows - s0.h_offset + 3) as usize,
        ) as int;
        let d = lines_draw(
            geo(s0),
            widths(c1.columns@),
            c1.grid(),
            true,
            s0.w_offset as int,
            6,
            term,
            lim,
            s0.w_offset as int,
        );
        &&& refocused(c0, c1, s0.w_pointer, s0.h_pointer)
        &&& if d.ok {
            &&& s1.frame@ == s0.frame@ + crate::terminal::goto_text(term as nat, 1) + "\x1b[4m"@ + d.text
            &&& focus_set(s0, s1, d.focus)
            &&& s1 == (WinInfo {
                frame: s1.frame,
                focused_content: s1.focused_content,
                cursor: s1.cursor,
                ..s0
            })
        } else {
            s1.request is Abort
        }
    }
}

/// What `draw_focus` does: the focus moves to the window's pointers, and the
/// row of the old focused cell and (when it differs) the new focused row are
/// drawn again from the leftmost of the two focused columns.
pub open spec fn focus_drawn(s0: WinInfo, c0: Cells, s1: WinInfo, c1: Cells) -> bool {
    let (wc_c, wc_l) = c0.w_cell;
    &&& c1.wf()
    &&& s1.wf()
    &&& if !can_refocus(c0, s0.w_pointer, s0.h_pointer) || 3 + crate::cells::sat_sub(wc_l, s0.h_offset)
        > usize::MAX {
        s1.request is Abort
    } else {
        let start = crate::cells::min_usize(
            c0.columns@[wc_c as int].start,
            c0.columns@[s0.w_pointer as int].start,
        ) as int;
        let i = crate::cells::min_usize(wc_c, s0.w_pointer) as int;
        let d1 = row_draw(
            s0.width as int,
            s0.num_cols as int,
            s0.h_offset as int,
            widths(c1.columns@),
            c1.grid(),
            i,
            wc_l as int,
            start,
        );
        let t1 = clear_from_text((3 + crate::cells::sat_sub(wc_l, s0.h_offset)) as nat, start as nat);
        &&& refocused(c0, c1, s0.w_pointer, s0.h_pointer)
        &&& if !d1.ok {
            s1.request is Abort
        } else if wc_l == s0.h_pointer {
            &&& s1.frame@ == s0.frame@ + t1 + d1.text
            &&& focus_set(s0, s1, row_focus(d1, wc_l as int))
            &&& s1 == (WinInfo {
                frame: s1.frame,
                focused_content: s1.focused_content,
                cursor: s1.cursor,
                ..s0
            })
        } else if 3 + crate::cells::sat_sub(s0.h_pointer, s0.h_offset) > usize::MAX {
            s1.request is Abort
        } else {
            let d2 = row_draw(
                s0.width as int,
                s0.num_cols as int,
                s0.h_offset as int,
                widths(c1.columns@),
                c1.grid(),
                s0.w_pointer as int,
                s0.h_pointer as int,
                start,
            );
            let t2 = clear_from_text(
                (3 + crate::cells::sat_sub(s0.h_pointer, s0.h_offset)) as nat,
                start as nat,
            );
            if d2.ok {
                &&& s1.frame@ == s0.frame@ + t1 + d1.text + t2 + d2.text
                &&& focus_set(
                    s0,
                    s1,
                    if d2.focus is Some {
                        row_focus(d2, s0.h_pointer as int)
                    } else {
                        row_focus(d1, wc_l as int)
                    },
                )
                &&& s1 == (WinInfo {
                    frame: s1.frame,
                    focused_content: s1.focused_content,
                    cursor: s1.cursor,
                    ..s0
                })
            } else {
                s1.request is Abort
            }
        }
    }
}

/// What `draw_w_cell` does: the row of the focused cell is drawn again from
/// the focused column on.
pub open spec fn w_cell_drawn(s0: WinInfo, c0: Cells, s1: WinInfo, c1: Cells) -> bool {
    let (i, row) = c0.w_cell;
    &&& c1.wf()
    &&& s1.wf()
    &&& if i >= c0.columns@.len() || crate::cells::sat_sub(row, s0.h_offset) + 3 > usize::MAX {
        s1.request is Abort
    } else {
        let start = c0.columns@[i as int].start;
        let d = row_draw_in(s0, c0.columns@, i as int, row as int, start as int);
        &&& restarted(c0, c1)
        &&& if d.ok {
            &&& s1.frame@ == s0.frame@ + clear_from_text(
                (crate::cells::sat_sub(row, s0.h_offset) + 3) as nat,
                start as nat,
            ) + d.text
            &&& focus_set(s0, s1, row_focus(d, row as int))
            &&& s1 == (WinInfo {
                frame: s1.frame,
                focused_content: s1.focused_content,
                cursor: s1.cursor,
                w_page: crate::cells::sat_sub(d.end as usize, s0.w_offset),
                ..s0
            })
        } else {
            s1.request is Abort
        }
    }
}

proof fn lemma_focus_set_row(o: WinInfo, w: WinInfo, d: RowDraw, row: int)
    requires
        row_focus_set(o, w, d, row),
    ensures
        focus_set(o, w, row_focus(d, row)),
{
}

impl WinInfo {
    /// Moves the focus to the window's pointers and draws the rows from the
    /// higher of the old and new focused rows down to the end of the view.
    #[verifier::rlimit(60)]
    pub fn draw_rows(&mut self, cells: &mut Cells)
        requires
            old(cells).wf(),
            old(self).wf(),
            !(old(self).request is Abort),
        ensures
            rows_drawn(*old(self), *old(cells), *final(self), *final(cells)),
    {
        let prev_row = cells.w_cell.1;
        let (wp, hp) = (self.w_pointer, self.h_pointer);
        let ghost c0 = *cells;
        self.refocus(cells, wp, hp);
        if self.is_aborted() {
            return;
        }
        let st_row = if prev_row < hp {
            prev_row
        } else {
            hp
        };
        if st_row < self.h_offset || st_row - self.h_offset > usize::MAX - 3 || self.height < 1
            || self.num_rows < self.h_offset {
            self.abort("attempt to subtract with overflow");
            return;
        }
        let term_row = st_row - self.h_offset + 3;
        crate::terminal::push_goto(&mut self.frame, term_row, 1);
        push_text(&mut self.frame, "\x1b[4m");
        let a = self.height - 1;
        let b = self.num_rows - self.h_offset + 3;
        let lim = if a < b {
            a
        } else {
            b
        };
        let ghost c1 = *cells;
        let wo = self.w_offset;
        let _e = self.draw_lines_part(cells, true, wo, 6, term_row, lim, wo);
        proof {
            lemma_restarted_grid(c1, *cells);
            lemma_refocused_restarted(c0, c1, *cells, wp, hp);
        }
    }

    /// Moves the focus to the window's pointers and draws again the row of
    /// the old focused cell and the new focused row.
    #[verifier::rlimit(80)]
    pub fn draw_focus(&mut self, cells: &mut Cells)
        requires
            old(cells).wf(),
            old(self).wf(),
            !(old(self).request is Abort),
        ensures
            focus_drawn(*old(self), *old(cells), *final(self), *final(cells)),
    {
        let (wc_c, wc_l) = cells.w_cell;
        let (wp, hp) = (self.w_pointer, self.h_pointer);
        let ghost c0 = *cells;
        let ghost s0 = *self;
        self.refocus(cells, wp, hp);
        if self.is_aborted() {
            return;
        }
        let ghost c1 = *cells;
        let prev_start = cells.columns[wc_c].start;
        let cur_start = cells.columns[wp].start;
        let start = if prev_start < cur_start {
            prev_start
        } else {
            cur_start
        };
        let d = crate::cells::sat_sub_exec(wc_l, self.h_offset);
        if d > usize::MAX - 3 {
            self.abort("attempt to add with overflow");
            return;
        }
        let prev_l = 3 + d;
        crate::terminal::push_goto(&mut self.frame, prev_l, start);
        push_text(&mut self.frame, "\x1b[K\x1b[4m");
        let mut i = if wc_c < wp {
            wc_c
        } else {
            wp
        };
        let ghost f1 = self.frame@;
        let ghost smid = *self;
        let ghost i0 = i;
        self.print_row(cells, &mut i, wc_l, start);
        proof {
            assert(c1.columns@[wc_c as int].start == c0.columns@[wc_c as int].start) by {
                assert(c1.col_meta()[wc_c as int] == c0.col_meta()[wc_c as int]);
            }
            assert(c1.columns@[wp as int].start == c0.columns@[wp as int].start) by {
                assert(c1.col_meta()[wp as int] == c0.col_meta()[wp as int]);
            }
            lemma_restarted_grid(c1, *cells);
            lemma_refocused_restarted(c0, c1, *cells, wp, hp);
        }
        if self.is_aborted() {
            return;
        }
        proof {
            let dd = row_draw_in(smid, c1.columns@, i0 as int, wc_l as int, start as int);
            assert(self.frame@ =~= s0.frame@ + clear_from_text(prev_l as nat, start as nat) + dd.text);
        }
        let ghost c2 = *cells;
        let ghost s2 = *self;
        if wc_l != hp {
            let d2 = crate::cells::sat_sub_exec(hp, self.h_offset);
            if d2 > usize::MAX - 3 {
                self.abort("attempt to add with overflow");
                return;
            }
            let ghost f2 = self.frame@;
            let cur_l = 3 + d2;
            crate::terminal::push_goto(&mut self.frame, cur_l, start);
            push_text(&mut self.frame, "\x1b[K\x1b[4m");
            let mut col = wp;
            let ghost smid2 = *self;
            self.print_row(cells, &mut col, hp, start);
            proof {
                lemma_restarted_grid(c1, c2);
                lemma_restarted_trans(c1, c2, *cells);
                lemma_restarted_grid(c1, *cells);
                lemma_refocused_restarted(c0, c1, *cells, wp, hp);
            }
            if self.is_aborted() {
                return;
            }
            proof {
                let dd2 = row_draw_in(smid2, c2.columns@, wp as int, hp as int, start as int);
                assert(self.frame@ =~= f2 + clear_from_text(cur_l as nat, start as nat) + dd2.text);
            }
        }
    }

    /// Draws the row of the focused cell again from the focused column on.
    pub fn draw_w_cell(&mut self, cells: &mut Cells)
        requires
            old(cells).wf(),
            old(self).wf(),
            !(old(self).request is Abort),
        ensures
            w_cell_drawn(*old(self), *old(cells), *final(self), *final(cells)),
    {
        let (i0, row) = cells.w_cell;
        if i0 >= cells.columns.len() {
            self.abort("index out of bounds");
            return;
        }
        let d = crate::cells::sat_sub_exec(row, self.h_offset);
        if d > usize::MAX - 3 {
            self.abort("attempt to add with overflow");
            return;
        }
        let start = cells.columns[i0].start;
        crate::terminal::push_goto(&mut self.frame, d + 3, start);
        push_text(&mut self.frame, "\x1b[K\x1b[4m");
        let ghost s1 = *self;
        let mut i = i0;
        self.print_row(cells, &mut i, row, start);
        if self.is_aborted() {
            return;
        }
        proof {
            let dd = row_draw_in(s1, old(cells).columns@, i0 as int, row as int, start as int);
            lemma_focus_set_row(s1, *self, dd, row as int);
            assert(self.frame@ =~= old(self).frame@ + clear_from_text((d + 3) as nat, start as nat) + dd.text);
        }
        let wo = self.w_offset;
        self.set_w_page(i, wo);
    }
}

} // verus!

verus! {

/// The characters `d[a..b]`, or none when `b <= a`.
pub open spec fn span(d: Seq<char>, a: int, b: int) -> Seq<char> {
    if a < b {
        d.subrange(a, b)
    } else {
        Seq::empty()
    }
}

/// The gap buffer `b` as shown in a field `w` characters wide: the text
/// before the cursor from the view offset on, then the text after the gap,
/// `w` characters in all at most; with where that shown text ends in the
/// buffer's storage.
pub open spec fn buffer_shown(b: crate::terminal::WriteBuf, w: usize) -> (Seq<char>, int, int) {
    let max_take = crate::cells::min_usize(crate::cells::sat_sub(b.content_len, b.offset), w);
    let take_1 = crate::cells::min_usize(b.gap_start, (b.offset + max_take) as usize);
    let post = b.gap_start + b.gap_len;
    let take_2 = post + crate::cells::sat_sub(w, crate::cells::sat_sub(take_1, b.offset));
    let stop = if take_2 < b.data@.len() {
        take_2
    } else {
        b.data@.len() as int
    };
    (
        span(b.data@, b.offset as int, take_1 as int) + span(b.data@, post, stop),
        take_1 as int,
        take_2,
    )
}

/// Whether `buffer_shown` can be computed without overflow.
pub open spec fn buffer_shown_ok(b: crate::terminal::WriteBuf, w: usize) -> bool {
    let max_take = crate::cells::min_usize(crate::cells::sat_sub(b.content_len, b.offset), w);
    let take_1 = crate::cells::min_usize(b.gap_start, (b.offset + max_take) as usize);
    &&& b.offset + max_take <= usize::MAX
    &&& b.gap_start + b.gap_len + crate::cells::sat_sub(w, crate::cells::sat_sub(take_1, b.offset))
        <= usize::MAX
}

/// The characters of `rest` added to `fc` one by one while `fc` holds fewer
/// than `w` bytes.
pub open spec fn fill_bytes(fc: Seq<char>, rest: Seq<char>, w: usize) -> Seq<char>
    decreases rest.len(),
{
    if rest.len() == 0 {
        fc
    } else {
        fill_bytes(
            if (crate::cells::byte_len(fc) as usize) < w {
                fc.push(rest[0])
            } else {
                fc
            },
            rest.drop_first(),
            w,
        )
    }
}

/// What `draw_command` does: the bottom line shows `:` and the visible part
/// of the command being typed, and the cursor is placed in it.
pub open spec fn command_drawn(s0: WinInfo, s1: WinInfo) -> bool {
    if !buffer_shown_ok(s0.write_buffer, s0.width) || s0.cursor.col + s0.cursor.offset > usize::MAX {
        &&& s1.request is Abort
        &&& s1 == (WinInfo { frame: s1.frame, request: s1.request, ..s0 })
    } else {
        &&& s1.frame@ == s0.frame@ + crate::terminal::line_start_text(s0.height as nat) + ":"@
            + buffer_shown(s0.write_buffer, s0.width).0 + crate::terminal::goto_text(
            s0.cursor.line as nat,
            (s0.cursor.col + s0.cursor.offset) as nat,
        )
        &&& s1 == (WinInfo { frame: s1.frame, ..s0 })
    }
}

/// `buffer_shown_ok(b, w)`.
pub fn shown_ok_exec(b: &crate::terminal::WriteBuf, w: usize) -> (r: bool)
    ensures
        r == buffer_shown_ok(*b, w),
{
    let a = crate::cells::sat_sub_exec(b.content_len, b.offset);
    let max_take = if a < w {
        a
    } else {
        w
    };
    if b.offset > usize::MAX - max_take {
        return false;
    }
    let take_1 = if b.gap_start < b.offset + max_take {
        b.gap_start
    } else {
        b.offset + max_take
    };
    if b.gap_start > usize::MAX - b.gap_len {
        return false;
    }
    let extra = crate::cells::sat_sub_exec(w, crate::cells::sat_sub_exec(take_1, b.offset));
    b.gap_start + b.gap_len <= usize::MAX - extra
}

impl WinInfo {
    /// Appends the visible part of the gap buffer, as wide as the terminal.
    #[verifier::rlimit(60)]
    fn push_write_buffer_to_frame(&mut self)
        requires
            old(self).wf(),
            buffer_shown_ok(old(self).write_buffer, old(self).width),
        ensures
            final(self).frame@ == old(self).frame@ + buffer_shown(old(self).write_buffer, old(self).width).0,
            *final(self) == (WinInfo { frame: final(self).frame, ..*old(self) }),
    {
        let offset = self.write_buffer.offset;
        let a = crate::cells::sat_sub_exec(self.write_buffer.content_len, offset);
        let max_take = if a < self.width {
            a
        } else {
            self.width
        };
        let take_1 = if self.write_buffer.gap_start < offset + max_take {
            self.write_buffer.gap_start
        } else {
            offset + max_take
        };
        if offset < take_1 {
            crate::text::push_range(&mut self.frame, &self.write_buffer.data, offset, take_1);
        }
        let post_gap = self.write_buffer.gap_start + self.write_buffer.gap_len;
        let take_2 = post_gap + crate::cells::sat_sub_exec(
            self.width,
            crate::cells::sat_sub_exec(take_1, offset),
        );
        let len = self.write_buffer.data.len();
        let stop = if take_2 < len {
            take_2
        } else {
            len
        };
        if post_gap < stop {
            crate::text::push_range(&mut self.frame, &self.write_buffer.data, post_gap, stop);
        }
        proof {
            let d = self.write_buffer.data@;
            assert(self.frame@ =~= old(self).frame@ + (span(d, offset as int, take_1 as int) + span(
                d,
                post_gap as int,
                stop as int,
            )));
        }
    }

    /// Writes the command being typed on the bottom line after a `:` and
    /// places the cursor in it.
    pub fn draw_command(&mut self)
        requires
            old(self).wf(),
        ensures
            command_drawn(*old(self), *final(self)),
    {
        if !shown_ok_exec(&self.write_buffer, self.width) {
            self.abort("attempt to add with overflow");
            return;
        }
        crate::terminal::push_line_start(&mut self.frame, self.height);
        push_text(&mut self.frame, ":");
        self.push_write_buffer_to_frame();
        if self.cursor.col > usize::MAX - self.cursor.offset {
            self.abort("attempt to add with overflow");
            return;
        }
        let (l, c) = self.cursor_pos();
        crate::terminal::push_goto(&mut self.frame, l, c);
    }
}

/// What `draw_edited` does: the focused cell is drawn with the text being
/// typed in it (padded to the column's width), the bottom line's text becomes
/// the buffer's text before the cursor and as much after it as fits the
/// terminal, and the rest of the row is drawn again after the cell.
pub open spec fn edited_drawn(s0: WinInfo, c0: Cells, s1: WinInfo, c1: Cells) -> bool {
    let (id, row) = c0.w_cell;
    let b = s0.write_buffer;
    &&& c1.wf()
    &&& s1.wf()
    &&& if id >= c0.columns@.len() || crate::cells::sat_sub(row, s0.h_offset) + 3 > usize::MAX
        || !buffer_shown_ok(b, c0.columns@[id as int].width) {
        s1.request is Abort
    } else {
        let col = c0.columns@[id as int];
        let cell_text = edited_cell_text(
            b,
            col.width,
            (crate::cells::sat_sub(row, s0.h_offset) + 3) as nat,
            col.start as nat,
        );
        let fc = edited_focus_text(b, col.width, s0.width);
        if s0.w_offset + s0.w_page > usize::MAX || s0.w_offset + s0.w_page < 1 {
            s1.request is Abort
        } else if id < s0.w_offset + s0.w_page - 1 {
            if id + 1 >= c0.columns@.len() {
                s1.request is Abort
            } else {
                let d = row_draw_in(
                    s0,
                    c0.columns@,
                    id + 1,
                    row as int,
                    c0.columns@[id + 1].start as int,
                );
                &&& restarted(c0, c1)
                &&& if d.ok {
                    &&& s1.frame@ == s0.frame@ + cell_text + d.text
                    &&& s1 == (WinInfo {
                        frame: s1.frame,
                        focused_content: s1.focused_content,
                        cursor: s1.cursor,
                        ..s0
                    })
                    &&& match d.focus {
                        Some(_) => row_focus_set(s0, s1, d, row as int),
                        None => s1.focused_content@ == fc && s1.cursor == s0.cursor,
                    }
                } else {
                    s1.request is Abort
                }
            }
        } else {
            &&& c1 == c0
            &&& s1.frame@ == s0.frame@ + cell_text
            &&& s1.focused_content@ == fc
            &&& s1 == (WinInfo { frame: s1.frame, focused_content: s1.focused_content, ..s0 })
        }
    }
}

proof fn lemma_fill_bytes_step(fc: Seq<char>, d: Seq<char>, i: int, stop: int, w: usize)
    requires
        0 <= i < stop <= d.len(),
    ensures
        fill_bytes(fc, d.subrange(i, stop), w) == fill_bytes(
            if (crate::cells::byte_len(fc) as usize) < w {
                fc.push(d[i])
            } else {
                fc
            },
            d.subrange(i + 1, stop),
            w,
        ),
{
    assert(d.subrange(i, stop).drop_first() =~= d.subrange(i + 1, stop));
}

/// The focused cell drawn with the gap buffer `b` in a column `w` wide
/// starting at terminal column `start` on line `line`.
pub open spec fn edited_cell_text(b: crate::terminal::WriteBuf, w: usize, line: nat, start: nat) -> Seq<char> {
    let sh = buffer_shown(b, w);
    let post = b.gap_start + b.gap_len;
    let pushed_end = if sh.2 < b.data@.len() {
        sh.2
    } else {
        b.data@.len() as int
    };
    let after = if post < pushed_end {
        pushed_end
    } else {
        post
    };
    crate::terminal::goto_text(line, start) + "\x1b[K\x1b[4;7;36;47m "@ + sh.0 + crate::text::spaces(
        (if sh.2 > after {
            sh.2 - after
        } else {
            0
        }) as nat,
    ) + " \x1b[27;39;49m|"@
}

/// The bottom line's text while a cell is edited in a column `w` wide: the
/// buffer's text up to the shown part's end before the cursor, then the text
/// after the gap while fewer than `width` bytes are held.
pub open spec fn edited_focus_text(b: crate::terminal::WriteBuf, w: usize, width: usize) -> Seq<char> {
    let sh = buffer_shown(b, w);
    fill_bytes(
        b.data@.take(sh.1),
        span(b.data@, b.gap_start + b.gap_len, b.data@.len() as int),
        width,
    )
}

/// Appends `edited_cell_text(b, cwidth, line, cstart)`.
#[verifier::rlimit(100)]
fn push_edited_cell(out: &mut String, b: &crate::terminal::WriteBuf, line: usize, cstart: usize, cwidth: usize)
    requires
        b.wf(),
        buffer_shown_ok(*b, cwidth),
    ensures
        final(out)@ == old(out)@ + edited_cell_text(*b, cwidth, line as nat, cstart as nat),
{
    let offset = b.offset;
    let a = crate::cells::sat_sub_exec(b.content_len, offset);
    let max_take = if a < cwidth {
        a
    } else {
        cwidth
    };
    let take_1 = if b.gap_start < offset + max_take {
        b.gap_start
    } else {
        offset + max_take
    };
    let post_gap0 = b.gap_start + b.gap_len;
    let extra = crate::cells::sat_sub_exec(cwidth, crate::cells::sat_sub_exec(take_1, offset));
    let take_2 = post_gap0 + extra;
    let ghost o = out@;
    crate::terminal::push_goto(out, line, cstart);
    push_text(out, "\x1b[K\x1b[4;7;36;47m ");
    let ghost d = b.data@;
    let ghost f0 = out@;
    if offset < take_1 {
        crate::text::push_range(out, &b.data, offset, take_1);
    }
    assert(out@ =~= f0 + span(d, offset as int, take_1 as int));
    let len = b.data.len();
    let stop = if take_2 < len {
        take_2
    } else {
        len
    };
    if post_gap0 < stop {
        crate::text::push_range(out, &b.data, post_gap0, stop);
    }
    assert(out@ =~= f0 + (span(d, offset as int, take_1 as int) + span(d, post_gap0 as int, stop as int)));
    let ghost f1 = out@;
    let after = if post_gap0 < stop {
        stop
    } else {
        post_gap0
    };
    if take_2 > after {
        crate::text::push_spaces(out, take_2 - after);
    }
    let ghost f2 = out@;
    push_text(out, " \x1b[27;39;49m|");
    proof {
        let sh = buffer_shown(*b, cwidth);
        assert(sh.1 == take_1 as int);
        assert(sh.2 == take_2 as int);
        assert(sh.0 == span(d, offset as int, take_1 as int) + span(d, post_gap0 as int, stop as int));
        let sp = crate::text::spaces(
            (if take_2 > after {
                take_2 - after
            } else {
                0
            }) as nat,
        );
        if !(take_2 > after) {
            assert(sp =~= Seq::<char>::empty());
            assert(f2 =~= f1 + sp);
        }
        let head = crate::terminal::goto_text(line as nat, cstart as nat) + "\x1b[K\x1b[4;7;36;47m "@;
        assert(f0 =~= o + head);
        assert(edited_cell_text(*b, cwidth, line as nat, cstart as nat) == head + sh.0 + sp
            + " \x1b[27;39;49m|"@);
        assert(out@ =~= o + (head + sh.0 + sp + " \x1b[27;39;49m|"@));
    }
}

/// `edited_focus_text(b, cwidth, width)`.
fn edited_focus(b: &crate::terminal::WriteBuf, cwidth: usize, width: usize) -> (fc: String)
    requires
        b.wf(),
        buffer_shown_ok(*b, cwidth),
    ensures
        fc@ == edited_focus_text(*b, cwidth, width),
{
    let mut fc = String::new();
    let offset = b.offset;
    let a = crate::cells::sat_sub_exec(b.content_len, offset);
    let max_take = if a < cwidth {
        a
    } else {
        cwidth
    };
    let take_1 = if b.gap_start < offset + max_take {
        b.gap_start
    } else {
        offset + max_take
    };
    let post_gap0 = b.gap_start + b.gap_len;
    let ghost d = b.data@;
    crate::text::push_range(&mut fc, &b.data, 0, take_1);
    let len = b.data.len();
    let mut i = post_gap0;
    while i < len
        invariant
            post_gap0 <= i <= len,
            len == b.data@.len(),
            d == b.data@,
            fill_bytes(fc@, span(d, i as int, len as int), width) == fill_bytes(
                d.take(take_1 as int),
                span(d, post_gap0 as int, len as int),
                width,
            ),
        decreases len - i,
    {
        let ghost f = fc@;
        let c = b.data[i];
        if fc.as_str().len() < width {
            fc.push(c);
        }
        proof {
            lemma_fill_bytes_step(f, d, i as int, len as int, width);
            if i + 1 == len {
                assert(span(d, i + 1, len as int) =~= d.subrange(i + 1, len as int));
            }
        }
        i += 1;
    }
    proof {
        assert(d.take(take_1 as int) == d.subrange(0, take_1 as int));
        assert(span(d, len as int, len as int) =~= Seq::<char>::empty());
    }
    fc
}

impl WinInfo {
    /// Draws the focused cell with the text being typed in it and the rest
    /// of its row after it; the bottom line's text becomes the buffer's text.
    pub fn draw_edited(&mut self, cells: &mut Cells)
        requires
            old(cells).wf(),
            old(self).wf(),
            !(old(self).request is Abort),
        ensures
            edited_drawn(*old(self), *old(cells), *final(self), *final(cells)),
    {
        let (id, row) = cells.w_cell;
        if id >= cells.columns.len() {
            self.focused_content = String::new();
            self.abort("index out of bounds");
            return;
        }
        let dr = crate::cells::sat_sub_exec(row, self.h_offset);
        if dr > usize::MAX - 3 {
            self.focused_content = String::new();
            self.abort("attempt to add with overflow");
            return;
        }
        let cstart = cells.columns[id].start;
        let cwidth = cells.columns[id].width;
        let offset = self.write_buffer.offset;
        let a = crate::cells::sat_sub_exec(self.write_buffer.content_len, offset);
        let max_take = if a < cwidth {
            a
        } else {
            cwidth
        };
        if offset > usize::MAX - max_take {
            self.focused_content = String::new();
            self.abort("attempt to add with overflow");
            return;
        }
        let take_1 = if self.write_buffer.gap_start < offset + max_take {
            self.write_buffer.gap_start
        } else {
            offset + max_take
        };
        let post_gap0 = self.write_buffer.gap_start + self.write_buffer.gap_len;
        let extra = crate::cells::sat_sub_exec(cwidth, crate::cells::sat_sub_exec(take_1, offset));
        if post_gap0 > usize::MAX - extra {
            self.focused_content = String::new();
            self.abort("attempt to add with overflow");
            return;
        }
        push_edited_cell(&mut self.frame, &self.write_buffer, dr + 3, cstart, cwidth);
        self.focused_content = edited_focus(&self.write_buffer, cwidth, self.width);
        if self.w_offset > usize::MAX - self.w_page || self.w_offset + self.w_page < 1 {
            self.abort("attempt to subtract with overflow");
            return;
        }
        if id < self.w_offset + self.w_page - 1 {
            if id + 1 >= cells.columns.len() {
                self.abort("index out of bounds");
                return;
            }
            let mut j = id + 1;
            let start = cells.columns[j].start;
            self.print_row(cells, &mut j, row, start);
        }
    }
}

} // verus!

verus! {

/// The number of decimal digits of `n` as the tab line counts them: one,
/// and one more for each division by ten while the number exceeds ten.
pub open spec fn gt10_digits(n: nat) -> nat
    decreases n,
{
    if n > 10 {
        1 + gt10_digits(n / 10)
    } else {
        1
    }
}

/// `gt10_digits(n)`.
fn gt10_digits_exec(n: usize) -> (r: usize)
    ensures
        r == gt10_digits(n as nat),
{
    let mut pad_num: usize = 1;
    let mut num = n;
    proof {
        lemma_gt10_digits_bound(n as nat);
    }
    while num > 10
        invariant
            pad_num + gt10_digits(num as nat) == gt10_digits(n as nat) + 1,
            n >= 1 ==> gt10_digits(n as nat) <= n,
            num > 10 ==> n >= 1,
            n <= usize::MAX,
        decreases num,
    {
        proof {
            lemma_gt10_digits_bound(num as nat);
        }
        pad_num += 1;
        num /= 10;
    }
    pad_num
}

proof fn lemma_gt10_digits_bound(n: nat)
    ensures
        1 <= gt10_digits(n) <= n + 1,
        n >= 1 ==> gt10_digits(n) <= n,
        n > 10 ==> gt10_digits(n) >= 2,
    decreases n,
{
    if n > 10 {
        lemma_gt10_digits_bound(n / 10);
    }
}

/// The tab text of an open sheet: `{id}: {filename} `.
pub open spec fn context_text(c: crate::cells::Context) -> Seq<char> {
    crate::text::dec_text(c.id as nat) + ": "@ + c.cells.filename@ + " "@
}

/// The width the tab line gives an open sheet.
pub open spec fn context_width(c: crate::cells::Context) -> int {
    gt10_digits(c.id as nat) + (crate::cells::byte_len(c.cells.filename@) as usize)
}

/// The tabs of the sheets from `i` on, while the used width `acc` is below
/// the terminal's width `w`; the sheet `handle` is highlighted. With the
/// width used in the end; `None` when a width overflows.
pub open spec fn tabs_text(cons: Seq<crate::cells::Context>, handle: int, i: int, acc: int, w: int) -> Option<(Seq<char>, int)>
    decreases cons.len() - i,
{
    if acc < w && 0 <= i < cons.len() {
        let cw = context_width(cons[i]);
        if cw > usize::MAX {
            None
        } else {
            let t = crate::text::pad_right(context_text(cons[i]), cw as nat);
            let piece = if i == handle {
                "\x1b[7;36m"@ + t + "\x1b[27;39m\x1b[30m"@
            } else {
                t
            };
            match tabs_text(cons, handle, i + 1, acc + crate::cells::min_usize(cw as usize, w as usize), w) {
                Some(r) => Some((piece + r.0, r.1)),
                None => None,
            }
        }
    } else {
        Some((Seq::empty(), acc))
    }
}

/// Appends the tab of `con`, `cw` wide, highlighted when `hl`.
fn push_tab(out: &mut String, con: &crate::cells::Context, cw: usize, hl: bool)
    ensures
        final(out)@ == old(out)@ + if hl {
            "\x1b[7;36m"@ + crate::text::pad_right(context_text(*con), cw as nat) + "\x1b[27;39m\x1b[30m"@
        } else {
            crate::text::pad_right(context_text(*con), cw as nat)
        },
{
    let mut t = String::new();
    crate::text::push_dec(&mut t, con.id);
    push_text(&mut t, ": ");
    push_text(&mut t, con.cells.filename.as_str());
    push_text(&mut t, " ");
    let v = to_chars(t.as_str());
    let ghost o = out@;
    if hl {
        push_text(out, "\x1b[7;36m");
        push_padded(out, &v, cw);
        push_text(out, "\x1b[27;39m\x1b[30m");
        assert(out@ =~= o + ("\x1b[7;36m"@ + crate::text::pad_right(context_text(*con), cw as nat) + "\x1b[27;39m\x1b[30m"@));
    } else {
        push_padded(out, &v, cw);
    }
}

impl WinInfo {
    /// The width the tab line gives the sheet `con`.
    pub fn printed_context_width(con: &mut crate::cells::Context) -> (r: usize)
        requires
            context_width(*old(con)) <= usize::MAX,
        ensures
            r == context_width(*old(con)),
            *final(con) == *old(con),
    {
        let pad_num = gt10_digits_exec(con.id);
        pad_num + con.cells().filename.as_str().len()
    }

    fn print_tabs_from(&mut self, cons: &mut Vec<crate::cells::Context>, handle: usize, i: usize, acc: usize) -> (a: usize)
        requires
            acc <= 2 * 65535,
            old(self).width <= 65535,
        ensures
            *final(cons) == *old(cons),
            tabs_text(old(cons)@, handle as int, i as int, acc as int, old(self).width as int) matches Some(
                r,
            ) ==> final(self).frame@ == old(self).frame@ + r.0 && a == r.1 && *final(self) == (WinInfo {
                frame: final(self).frame,
                ..*old(self)
            }),
            tabs_text(old(cons)@, handle as int, i as int, acc as int, old(self).width as int) is None
                ==> final(self).request is Abort && *final(self) == (WinInfo {
                frame: final(self).frame,
                request: final(self).request,
                ..*old(self)
            }),
        decreases old(cons)@.len() - i,
    {
        if !(acc < self.width && i < cons.len()) {
            return acc;
        }
        let pad = gt10_digits_exec(cons[i].id);
        let blen = cons[i].cells.filename.as_str().len();
        if pad > usize::MAX - blen {
            self.abort("attempt to add with overflow");
            return acc;
        }
        let cw = pad + blen;
        push_tab(&mut self.frame, &cons[i], cw, i == handle);
        let add = if cw < self.width {
            cw
        } else {
            self.width
        };
        self.print_tabs_from(cons, handle, i + 1, acc + add)
    }

    /// Writes the tab line of open sheets on the line above the bottom one,
    /// the current sheet highlighted.
    pub fn print_context(&mut self, csvs: &mut crate::cells::Csvs)
        requires
            old(self).wf(),
            !(old(self).request is Abort),
        ensures
            *final(csvs) == *old(csvs),
            tabs_text(old(csvs).contexts@, old(csvs).handle as int, 0, 0, old(self).width as int) matches Some(
                r,
            ) ==> final(self).frame@ == old(self).frame@ + crate::terminal::line_start_text(
                crate::cells::sat_sub(old(self).height, 1) as nat,
            ) + "\x1b[30;47m"@ + r.0 + crate::text::spaces(
                crate::cells::sat_sub(old(self).width, r.1 as usize) as nat,
            ) + "\x1b[39;49m"@ && *final(self) == (WinInfo { frame: final(self).frame, ..*old(self) }),
            tabs_text(old(csvs).contexts@, old(csvs).handle as int, 0, 0, old(self).width as int) is None
                ==> final(self).request is Abort && *final(self) == (WinInfo {
                frame: final(self).frame,
                request: final(self).request,
                ..*old(self)
            }),
    {
        let h = crate::cells::sat_sub_exec(self.height, 1);
        crate::terminal::push_line_start(&mut self.frame, h);
        push_text(&mut self.frame, "\x1b[30;47m");
        let ghost f1 = self.frame@;
        let handle = csvs.handle;
        let width = self.print_tabs_from(&mut csvs.contexts, handle, 0, 0);
        if self.is_aborted() {
            return;
        }
        let ghost f2 = self.frame@;
        let pad = crate::cells::sat_sub_exec(self.width, width);
        crate::text::push_spaces(&mut self.frame, pad);
        push_text(&mut self.frame, "\x1b[39;49m");
        proof {
            let r = tabs_text(old(csvs).contexts@, old(csvs).handle as int, 0, 0, old(self).width as int)->0;
            assert(f1 =~= old(self).frame@ + crate::terminal::line_start_text(h as nat) + "\x1b[30;47m"@);
            assert(f2 =~= f1 + r.0);
            assert(self.frame@ =~= old(self).frame@ + crate::terminal::line_start_text(h as nat)
                + "\x1b[30;47m"@ + r.0 + crate::text::spaces(pad as nat) + "\x1b[39;49m"@);
        }
    }
}

} // verus!

verus! {

/// What `show_csv` does after a draw that took the window from `s1` (and
/// the sheet to `c1`): unless the draw stopped the step, the bottom line is
/// drawn when `bottom` is set and the frame is sent.
pub open spec fn shown_after(s1: WinInfo, c1: Cells, bottom: bool, s2: WinInfo, c2: Cells) -> bool {
    &&& c2 == c1
    &&& if s1.request is Abort {
        s2 == s1
    } else if bottom {
        exists|m: WinInfo| #[trigger] crate::terminal::bottom_drawn(s1, m) && crate::terminal::flushed(m, s2)
    } else {
        crate::terminal::flushed(s1, s2)
    }
}

/// What `show_csv` does: it draws what changed and sends the frame.
pub open spec fn csv_shown(s0: WinInfo, c0: Cells, s2: WinInfo, c2: Cells) -> bool {
    match s0.changed {
        WinChange::Cell => exists|s1: WinInfo, c1: Cells|
            #[trigger] w_cell_drawn(s0, c0, s1, c1) && shown_after(s1, c1, false, s2, c2),
        WinChange::Focus => exists|s1: WinInfo, c1: Cells|
            #[trigger] focus_drawn(s0, c0, s1, c1) && shown_after(s1, c1, true, s2, c2),
        WinChange::ColWidth => exists|s1: WinInfo, c1: Cells|
            #[trigger] from_column_drawn(s0, c0, s1, c1) && shown_after(s1, c1, true, s2, c2),
        WinChange::Rows => exists|s1: WinInfo, c1: Cells|
            #[trigger] rows_drawn(s0, c0, s1, c1) && shown_after(s1, c1, true, s2, c2),
        WinChange::Write => exists|s1: WinInfo, c1: Cells|
            #[trigger] edited_drawn(s0, c0, s1, c1) && shown_after(s1, c1, true, s2, c2),
        WinChange::Command => exists|s1: WinInfo|
            #[trigger] command_drawn(s0, s1) && shown_after(s1, c0, false, s2, c2),
        WinChange::Non => s2 == s0 && c2 == c0,
        _ => exists|s1: WinInfo, c1: Cells|
            #[trigger] screen_drawn(s0, c0, s1, c1) && shown_after(s1, c1, true, s2, c2),
    }
}

/// The texts of the rows `g` of every column.
pub open spec fn rows_texts(g: Seq<Seq<crate::cells::CellModel>>) -> Seq<Seq<Seq<char>>> {
    g.map_values(|r: Seq<crate::cells::CellModel>| r.map_values(|m: crate::cells::CellModel| m.content))
}

/// The texts of the rows of every column of `c`.
pub open spec fn grid_texts(c: Cells) -> Seq<Seq<Seq<char>>> {
    rows_texts(c.grid())
}

/// Setting a focus flag changes no text.
proof fn lemma_set_focus_texts(g: Seq<Seq<crate::cells::CellModel>>, c: int, r: int, b: bool)
    requires
        0 <= c < g.len(),
        0 <= r < g[c].len(),
    ensures
        rows_texts(crate::cells::set_focus(g, c, r, b)) == rows_texts(g),
{
    let h = crate::cells::set_focus(g, c, r, b);
    assert forall|i: int| 0 <= i < g.len() implies #[trigger] rows_texts(h)[i] == rows_texts(g)[i] by {
        if i == c {
            assert(rows_texts(h)[i] =~= rows_texts(g)[i]);
        }
    }
    assert(rows_texts(h) =~= rows_texts(g));
}

/// Moving the focus changes no row's text.
proof fn lemma_refocused_texts(o: Cells, f: Cells, c: usize, r: usize)
    requires
        refocused(o, f, c, r),
        can_refocus(o, c, r),
    ensures
        grid_texts(f) == grid_texts(o),
{
    lemma_set_focus_texts(o.grid(), o.w_cell.0 as int, o.w_cell.1 as int, false);
    lemma_set_focus_texts(
        crate::cells::set_focus(o.grid(), o.w_cell.0 as int, o.w_cell.1 as int, false),
        c as int,
        r as int,
        true,
    );
}

/// Moving where columns start changes no row's text.
proof fn lemma_restarted_texts(o: Cells, f: Cells)
    requires
        restarted(o, f),
    ensures
        grid_texts(f) == grid_texts(o),
{
    lemma_restarted_grid(o, f);
}

/// Unless the step stopped, `show_csv` changes the text of no row.
pub proof fn lemma_show_keeps_texts(s0: WinInfo, c0: Cells, s2: WinInfo, c2: Cells)
    requires
        csv_shown(s0, c0, s2, c2),
        !(s2.request is Abort),
    ensures
        grid_texts(c2) == grid_texts(c0),
{
    match s0.changed {
        WinChange::Cell => {
            let (s1, c1) = choose|s1: WinInfo, c1: Cells| #[trigger] w_cell_drawn(s0, c0, s1, c1) && shown_after(s1, c1, false, s2, c2);
            lemma_restarted_texts(c0, c1);
        },
        WinChange::Focus => {
            let (s1, c1) = choose|s1: WinInfo, c1: Cells| #[trigger] focus_drawn(s0, c0, s1, c1) && shown_after(s1, c1, true, s2, c2);
            lemma_refocused_texts(c0, c1, s0.w_pointer, s0.h_pointer);
        },
        WinChange::ColWidth => {
            let (s1, c1) = choose|s1: WinInfo, c1: Cells| #[trigger] from_column_drawn(s0, c0, s1, c1) && shown_after(s1, c1, true, s2, c2);
            lemma_restarted_texts(c0, c1);
        },
        WinChange::Rows => {
            let (s1, c1) = choose|s1: WinInfo, c1: Cells| #[trigger] rows_drawn(s0, c0, s1, c1) && shown_after(s1, c1, true, s2, c2);
            lemma_refocused_texts(c0, c1, s0.w_pointer, s0.h_pointer);
        },
        WinChange::Write => {
            let (s1, c1) = choose|s1: WinInfo, c1: Cells| #[trigger] edited_drawn(s0, c0, s1, c1) && shown_after(s1, c1, true, s2, c2);
            if !(c1 == c0) {
                lemma_restarted_texts(c0, c1);
            }
        },
        WinChange::Command => {},
        WinChange::Non => {},
        _ => {
            let (s1, c1) = choose|s1: WinInfo, c1: Cells| #[trigger] screen_drawn(s0, c0, s1, c1) && shown_after(s1, c1, true, s2, c2);
            if s0.h_pointer < s0.num_rows {
                lemma_refocused_texts(c0, c1, s0.w_pointer, s0.h_pointer);
            } else {
                lemma_restarted_texts(c0, c1);
            }
        },
    }
}

/// What `show_csv` leaves: with nothing changed, the window and the sheet
/// as they were; else, unless the step stopped, the change drawn and the
/// frame sent (nothing pending, an empty frame).
pub proof fn lemma_show_settles(s0: WinInfo, c0: Cells, s2: WinInfo, c2: Cells)
    requires
        csv_shown(s0, c0, s2, c2),
    ensures
        s0.changed == WinChange::Non ==> s2 == s0 && c2 == c0,
        s0.changed != WinChange::Non && !(s2.request is Abort) ==> s2.changed == WinChange::Non
            && s2.frame@ == Seq::<char>::empty(),
{
}

impl WinInfo {
    fn finish_show(&mut self, bottom: bool)
        requires
            old(self).wf(),
        ensures
            final(self).wf(),
            ({
                let s1 = *old(self);
                if s1.request is Abort {
                    *final(self) == s1
                } else if bottom {
                    exists|m: WinInfo|
                        #[trigger] crate::terminal::bottom_drawn(s1, m) && crate::terminal::flushed(m, *final(self))
                } else {
                    crate::terminal::flushed(s1, *final(self))
                }
            }),
    {
        if self.is_aborted() {
            return;
        }
        if bottom {
            self.draw_focused_content();
            let ghost m = *self;
            self.flush();
            assert(crate::terminal::bottom_drawn(*old(self), m));
        } else {
            self.flush();
        }
    }

    /// Draws what changed since the last draw and sends the frame.
    pub fn show_csv(&mut self, cells: &mut Cells)
        requires
            old(cells).wf(),
            old(self).wf(),
            !(old(self).request is Abort),
        ensures
            final(cells).wf(),
            final(self).wf(),
            csv_shown(*old(self), *old(cells), *final(self), *final(cells)),
    {
        let ghost s0 = *self;
        let ghost c0 = *cells;
        match self.changed {
            WinChange::Cell => {
                self.draw_w_cell(cells);
                let ghost s1 = *self;
                let ghost c1 = *cells;
                self.finish_show(false);
                assert(w_cell_drawn(s0, c0, s1, c1));
            },
            WinChange::Focus => {
                self.draw_focus(cells);
                let ghost s1 = *self;
                let ghost c1 = *cells;
                self.finish_show(true);
                assert(focus_drawn(s0, c0, s1, c1));
            },
            WinChange::ColWidth => {
                self.draw_from_column(cells);
                let ghost s1 = *self;
                let ghost c1 = *cells;
                self.finish_show(true);
                assert(from_column_drawn(s0, c0, s1, c1));
            },
            WinChange::Rows => {
                self.draw_rows(cells);
                let ghost s1 = *self;
                let ghost c1 = *cells;
                self.finish_show(true);
                assert(rows_drawn(s0, c0, s1, c1));
            },
            WinChange::Write => {
                self.draw_edited(cells);
                let ghost s1 = *self;
                let ghost c1 = *cells;
                self.finish_show(true);
                assert(edited_drawn(s0, c0, s1, c1));
            },
            WinChange::Command => {
                self.draw_command();
                let ghost s1 = *self;
                self.finish_show(false);
                assert(command_drawn(s0, s1));
            },
            WinChange::Non => {},
            _ => {
                self.draw_screen(cells);
                let ghost s1 = *self;
                let ghost c1 = *cells;
                self.finish_show(true);
                assert(screen_drawn(s0, c0, s1, c1));
            },
        }
    }
}

} // verus!

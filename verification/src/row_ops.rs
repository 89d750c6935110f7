//! Row commands that change the sheet: inserting, deleting and moving rows.
use vstd::prelude::*;

use crate::cells::{Cell, CellModel, Cells, Column};
use crate::terminal::{WinChange, WinInfo};

verus! {

/// `n` empty cells.
pub open spec fn blanks(n: nat) -> Seq<CellModel> {
    Seq::new(n, |i: int| crate::cells::new_cell_model(Seq::empty()))
}

/// `r` with `n` empty rows put in before row `at`.
pub open spec fn with_blanks(r: Seq<CellModel>, at: int, n: nat) -> Seq<CellModel> {
    r.take(at) + blanks(n) + r.skip(at)
}

/// The sheet `f` is `o` with `n` empty rows put in before row `at` of every
/// column.
pub open spec fn rows_inserted(o: Cells, f: Cells, at: int, n: nat) -> bool {
    &&& f.wf()
    &&& f.columns@.len() == o.columns@.len()
    &&& forall|k: int|
        0 <= k < o.columns@.len() ==> {
            &&& (#[trigger] f.columns@[k]).rows() == with_blanks(o.columns@[k].rows(), at, n)
            &&& f.columns@[k].cells@.len() == o.columns@[k].cells@.len() + n
            &&& f.columns@[k].indices@.len() == o.columns@[k].indices@.len() + n
            &&& f.columns@[k].start == o.columns@[k].start
            &&& f.columns@[k].width == o.columns@[k].width
            &&& f.columns@[k].padding == o.columns@[k].padding
        }
    &&& f == (Cells { columns: f.columns, ..o })
}

/// The sheet `f` is `o` with the focus flag of stored cell `s` of column `k`
/// cleared.
pub open spec fn stored_focus_cleared(o: Cells, f: Cells, k: int, s: int) -> bool {
    &&& f.columns@.len() == o.columns@.len()
    &&& forall|j: int| 0 <= j < o.columns@.len() && j != k ==> #[trigger] f.columns@[j] == o.columns@[j]
    &&& f.columns@[k].cells@ == o.columns@[k].cells@.update(s, Cell { is_focused: false, ..o.columns@[k].cells@[s] })
    &&& f.columns@[k] == (Column { cells: f.columns@[k].cells, ..o.columns@[k] })
    &&& f == (Cells { columns: f.columns, ..o })
}

/// The sheet `f` is `o` with the focus moved to row `row` of column `col`.
pub open spec fn w_cell_moved(o: Cells, f: Cells, col: usize, row: usize) -> bool {
    &&& f.wf()
    &&& f.w_cell == (col, row)
    &&& f.grid() == crate::cells::set_focus(
        crate::cells::set_focus(o.grid(), o.w_cell.0 as int, o.w_cell.1 as int, false),
        col as int,
        row as int,
        true,
    )
    &&& f.col_meta() == o.col_meta()
    &&& f.columns@.len() == o.columns@.len()
    &&& forall|k: int|
        0 <= k < o.columns@.len() ==> (#[trigger] f.columns@[k]).indices@ == o.columns@[k].indices@
            && f.columns@[k].cells@.len() == o.columns@[k].cells@.len()
    &&& f == (Cells { columns: f.columns, w_cell: f.w_cell, ..o })
}

/// Whether `insert_row` of `n` rows after the focused one can run to its end
/// on this window and sheet.
pub open spec fn insert_ok(s: WinInfo, c: Cells, n: usize) -> bool {
    let (wc, wr) = c.w_cell;
    let (wp, hp) = (s.w_pointer, s.h_pointer);
    &&& hp + 1 + n <= usize::MAX
    &&& crate::terminal::small((s.num_rows + n) as usize)
    &&& s.num_rows + n <= usize::MAX
    &&& forall|k: int| 0 <= k < c.columns@.len() ==> hp + 1 <= (#[trigger] c.columns@[k]).indices@.len()
    &&& wp < c.columns@.len()
    &&& hp < c.columns@[wp as int].cells@.len()
    &&& wc < c.columns@.len()
    &&& wr < c.columns@[wc as int].indices@.len() + n
    &&& hp < c.columns@[wp as int].indices@.len() + n
}

impl Column {
    /// Puts `n` empty rows in before row `at`.
    pub fn insert_blanks(&mut self, at: usize, n: usize)
        requires
            old(self).wf(),
            at <= old(self).indices@.len(),
            at + n <= usize::MAX,
        ensures
            final(self).wf(),
            final(self).rows() == with_blanks(old(self).rows(), at as int, n as nat),
            final(self).cells@.len() == old(self).cells@.len() + n,
            final(self).indices@.len() == old(self).indices@.len() + n,
            final(self).start == old(self).start,
            final(self).width == old(self).width,
            final(self).padding == old(self).padding,
    {
        let mut j: usize = 0;
        while j < n
            invariant
                j <= n,
                at <= old(self).indices@.len(),
                at + n <= usize::MAX,
                self.wf(),
                self.rows() == with_blanks(old(self).rows(), at as int, j as nat),
                self.cells@.len() == old(self).cells@.len() + j,
                self.indices@.len() == old(self).indices@.len() + j,
                self.start == old(self).start,
                self.width == old(self).width,
                self.padding == old(self).padding,
            decreases n - j,
        {
            let c = Cell::new("");
            proof {
                reveal_strlit("");
                assert(self.rows().len() == self.indices@.len());
            }
            let ghost r0 = self.rows();
            self.insert_cell(at + j, c);
            proof {
                let o = old(self).rows();
                assert(blanks((j + 1) as nat) =~= blanks(j as nat).push(crate::cells::new_cell_model(Seq::empty())));
                assert(self.rows() =~= with_blanks(o, at as int, (j + 1) as nat));
            }
            j += 1;
        }
    }
}

/// What `insert_row` does to the window `win0` and the sheet `sheet0`,
/// giving `win1` and `sheet1`.
pub open spec fn insert_row_outcome(win0: WinInfo, sheet0: Cells, count: usize, win1: WinInfo, sheet1: Cells) -> bool {
    &&& !insert_ok(win0, sheet0, count) ==> win1.request is Abort
    &&& insert_ok(win0, sheet0, count) ==> exists|c1: Cells, c2: Cells, c3: Cells|
        {
            &&& #[trigger] rows_inserted(sheet0, c1, win0.h_pointer + 1, count as nat)
            &&& #[trigger] stored_focus_cleared(
                c1,
                c2,
                win0.w_pointer as int,
                win0.h_pointer + count,
            )
            &&& #[trigger] w_cell_moved(c2, c3, win0.w_pointer, win0.h_pointer)
            &&& crate::render::csv_shown(
                WinInfo {
                    num_rows: (win0.num_rows + count) as usize,
                    changed: WinChange::Rows,
                    ..win0
                },
                Cells { written: true, ..c3 },
                win1,
                sheet1,
            )
        }
}

impl WinInfo {
    /// Puts `count` empty rows in after the focused row of every column,
    /// moves the focus back to the pointers, and draws the rows again.
    pub fn insert_row(&mut self, cells: &mut Cells, count: usize)
        requires
            old(self).wf(),
            old(cells).wf(),
            !(old(self).request is Abort),
        ensures
            final(self).wf(),
            final(cells).wf(),
            insert_row_outcome(*old(self), *old(cells), count, *final(self), *final(cells)),
    {
        let hp = self.h_pointer;
        let wp = self.w_pointer;
        if count > usize::MAX / 16 || hp >= usize::MAX - count || self.num_rows > usize::MAX / 16 - count {
            self.abort("attempt to add with overflow");
            return;
        }
        let start = hp + 1;
        let nc = cells.columns.len();
        let mut k: usize = 0;
        while k < nc
            invariant
                k <= nc,
                nc == cells.columns@.len(),
                *cells == *old(cells),
                *self == *old(self),
                self.wf(),
                cells.wf(),
                start == hp + 1,
                hp == old(self).h_pointer,
                forall|j: int| 0 <= j < k ==> start <= (#[trigger] cells.columns@[j]).indices@.len(),
            decreases nc - k,
        {
            if start > cells.columns[k].indices.len() {
                assert(!(hp + 1 <= cells.columns@[k as int].indices@.len()));
                self.abort("insertion index should be <= len");
                return;
            }
            k += 1;
        }
        if wp >= nc || hp >= cells.columns[wp].cells.len() {
            self.abort("index out of bounds");
            return;
        }
        let (wc, wr) = cells.w_cell;
        if wc >= nc || (wr >= count && wr - count >= cells.columns[wc].indices.len()) || (hp >= count && hp - count
            >= cells.columns[wp].indices.len()) {
            self.abort("index out of bounds");
            return;
        }
        let mut k: usize = 0;
        while k < nc
            invariant
                k <= nc,
                nc == cells.columns@.len(),
                start + count <= usize::MAX,
                cells.wf(),
                forall|j: int| 0 <= j < nc ==> start <= (#[trigger] old(cells).columns@[j]).indices@.len(),
                forall|j: int|
                    0 <= j < k ==> {
                        &&& (#[trigger] cells.columns@[j]).rows() == with_blanks(old(cells).columns@[j].rows(), start as int, count as nat)
                        &&& cells.columns@[j].cells@.len() == old(cells).columns@[j].cells@.len() + count
                        &&& cells.columns@[j].indices@.len() == old(cells).columns@[j].indices@.len() + count
                        &&& cells.columns@[j].start == old(cells).columns@[j].start
                        &&& cells.columns@[j].width == old(cells).columns@[j].width
                        &&& cells.columns@[j].padding == old(cells).columns@[j].padding
                    },
                forall|j: int| k <= j < nc ==> #[trigger] cells.columns@[j] == old(cells).columns@[j],
                *cells == (Cells { columns: cells.columns, ..*old(cells) }),
            decreases nc - k,
        {
            let ghost before = *cells;
            cells.get_column(k).insert_blanks(start, count);
            proof {
                assert forall|j: int| 0 <= j < cells.columns@.len() implies (#[trigger] cells.columns@[j]).wf() by {
                    if j != k {
                        assert(cells.columns@[j] == before.columns@[j]);
                    }
                }
            }
            k += 1;
        }
        let ghost c1 = *cells;
        assert(rows_inserted(*old(cells), c1, start as int, count as nat));
        cells.get_column(wp).set_stored_focus(hp + count, false);
        let ghost c2 = *cells;
        proof {
            assert(stored_focus_cleared(c1, c2, wp as int, hp + count));
            assert forall|j: int| 0 <= j < c2.columns@.len() implies (#[trigger] c2.columns@[j]).wf() by {
                assert(c1.columns@[j].wf());
            }
        }
        cells.set_w_cell(wp, hp);
        let ghost c3 = *cells;
        cells.written = true;
        self.num_rows = self.num_rows + count;
        self.changed = WinChange::Rows;
        self.show_csv(cells);
        assert(w_cell_moved(c2, c3, wp, hp));
    }
}


/// The sheet `f` is `o` with row `r` taken out of every column.
pub open spec fn rows_removed(o: Cells, f: Cells, r: int) -> bool {
    &&& f.wf()
    &&& f.columns@.len() == o.columns@.len()
    &&& forall|k: int|
        0 <= k < o.columns@.len() ==> {
            &&& (#[trigger] f.columns@[k]).rows() == o.columns@[k].rows().remove(r)
            &&& f.columns@[k].cells@.len() == o.columns@[k].cells@.len() - 1
            &&& f.columns@[k].start == o.columns@[k].start
            &&& f.columns@[k].width == o.columns@[k].width
            &&& f.columns@[k].padding == o.columns@[k].padding
        }
    &&& f == (Cells { columns: f.columns, ..o })
}

/// Whether a confirmed `delete_row` can run to its end on this window and
/// sheet: the row exists in every column, and no column would keep fewer
/// stored cells than padding rows.
pub open spec fn delete_ok(s: WinInfo, c: Cells) -> bool {
    let (wc, wr) = c.w_cell;
    &&& s.num_rows >= 1
    &&& c.has_cell(wc, wr)
    &&& c.has_cell(s.w_pointer, crate::cells::sat_sub(s.h_pointer, 1))
    &&& forall|k: int|
        0 <= k < c.columns@.len() ==> s.h_pointer < (#[trigger] c.columns@[k]).indices@.len()
            && c.columns@[k].padding < c.columns@[k].cells@.len()
}

/// The question `delete_row` asks about row `h`.
pub open spec fn delete_question(h: usize) -> Seq<char> {
    "\x1b[?25lConfirm remove row "@ + crate::text::hex4_text(h as nat) + " with 'y': "@
}

/// What the window shows after the rows were drawn again from `s1`: the
/// report `t` on the bottom line, then a flush.
pub open spec fn reported_after(s1: WinInfo, t: Seq<char>, s2: WinInfo) -> bool {
    if s1.request is Abort {
        s2 == s1
    } else {
        exists|m: WinInfo| #[trigger] crate::commands::bottom_set(s1, t, m) && crate::terminal::flushed(m, s2)
    }
}

/// What `delete_row` does, from the window `win0` to `win1`.
pub open spec fn delete_row_outcome(win0: WinInfo, win1: WinInfo) -> bool {
    &&& win0.num_rows == 1 ==> crate::commands::bottom_set(
        win0,
        "\x1b[?25lCannot delete the only row."@,
        win1,
    )
    &&& win0.num_rows != 1 ==> exists|m: WinInfo|
        #[trigger] crate::commands::bottom_set(win0, delete_question(win0.h_pointer), m)
            && crate::terminal::flushed(m, WinInfo { prompt: m.prompt, ..win1 })
            && win1.prompt is DeleteRow
}

/// What `confirm_delete_row` does to the window `win0` and the sheet `sheet0`,
/// giving `win1` and `sheet1`.
pub open spec fn confirm_delete_row_outcome(win0: WinInfo, sheet0: Cells, yes: bool, win1: WinInfo, sheet1: Cells) -> bool {
    &&& ({
        let h = win0.h_pointer;
        if !yes {
            sheet1 == sheet0 && exists|m: WinInfo|
                #[trigger] crate::commands::bottom_set(
                    win0,
                    "Row "@ + crate::text::hex4_text(h as nat) + " was not deleted."@,
                    m,
                ) && crate::terminal::flushed(m, win1)
        } else if !delete_ok(win0, sheet0) {
            win1.request is Abort
        } else {
            let nr = (win0.num_rows - 1) as usize;
            let s1 = WinInfo { num_rows: nr, ..win0 };
            exists|c1: Cells, c2: Cells, s2: WinInfo|
                {
                    &&& #[trigger] w_cell_moved(sheet0, c1, win0.w_pointer, crate::cells::sat_sub(h, 1))
                    &&& #[trigger] rows_removed(c1, c2, h as int)
                    &&& if win0.h_offset < crate::cells::sat_sub(nr, win0.h_page) {
                        crate::render::rows_drawn(s1, Cells { written: true, ..c2 }, s2, sheet1)
                    } else {
                        crate::render::screen_drawn(
                            WinInfo { h_offset: crate::cells::sat_sub(win0.h_offset, 1), ..s1 },
                            Cells { written: true, ..c2 },
                            s2,
                            sheet1,
                        )
                    }
                    &&& #[trigger] reported_after(s2, "Removed row "@ + crate::text::hex4_text(h as nat), win1)
                }
        }
    })
}

impl WinInfo {
    /// Asks to confirm deleting the focused row (unless it is the only one)
    /// and waits for the answer.
    pub fn delete_row(&mut self)
        requires
            old(self).wf(),
        ensures
            final(self).wf(),
            delete_row_outcome(*old(self), *final(self)),
    {
        if self.num_rows == 1 {
            self.push_bottom("\x1b[?25lCannot delete the only row.");
            return;
        }
        let mut t = String::new();
        crate::text::push_text(&mut t, "\x1b[?25lConfirm remove row ");
        crate::text::push_hex4(&mut t, self.h_pointer);
        crate::text::push_text(&mut t, " with 'y': ");
        assert(t@ =~= delete_question(old(self).h_pointer));
        self.push_bottom(t.as_str());
        let ghost m = *self;
        self.flush();
        self.prompt = crate::terminal::Prompt::DeleteRow;
        assert(crate::commands::bottom_set(*old(self), delete_question(old(self).h_pointer), m));
    }

    /// Deletes the focused row when `yes`, moving the focus up one row and
    /// drawing again; else says the row was kept.
    pub fn confirm_delete_row(&mut self, cells: &mut Cells, yes: bool)
        requires
            old(self).wf(),
            old(cells).wf(),
            !(old(self).request is Abort),
        ensures
            final(self).wf(),
            final(cells).wf(),
            confirm_delete_row_outcome(*old(self), *old(cells), yes, *final(self), *final(cells)),
    {
        let h = self.h_pointer;
        if !yes {
            let mut t = String::new();
            crate::text::push_text(&mut t, "Row ");
            crate::text::push_hex4(&mut t, h);
            crate::text::push_text(&mut t, " was not deleted.");
            assert(t@ =~= "Row "@ + crate::text::hex4_text(h as nat) + " was not deleted."@);
            self.push_bottom(t.as_str());
            let ghost m = *self;
            self.flush();
            assert(crate::commands::bottom_set(*old(self), "Row "@ + crate::text::hex4_text(h as nat) + " was not deleted."@, m));
            return;
        }
        let wp = self.w_pointer;
        let up = crate::cells::sat_sub_exec(h, 1);
        let (wc, wr) = cells.w_cell;
        if self.num_rows == 0 || !cells.has_cell_exec(wc, wr) || !cells.has_cell_exec(wp, up) {
            self.abort("index out of bounds");
            return;
        }
        let nc = cells.columns.len();
        let mut k: usize = 0;
        while k < nc
            invariant
                k <= nc,
                nc == cells.columns@.len(),
                *cells == *old(cells),
                *self == *old(self),
                self.wf(),
                cells.wf(),
                h == old(self).h_pointer,
                yes,
                wp == old(self).w_pointer,
                up == crate::cells::sat_sub(h, 1),
                old(self).num_rows >= 1,
                old(cells).has_cell(old(cells).w_cell.0, old(cells).w_cell.1),
                old(cells).has_cell(wp, up),
                forall|j: int|
                    0 <= j < k ==> h < (#[trigger] cells.columns@[j]).indices@.len() && cells.columns@[j].padding
                        < cells.columns@[j].cells@.len(),
            decreases nc - k,
        {
            if h >= cells.columns[k].indices.len() || cells.columns[k].padding >= cells.columns[k].cells.len() {
                assert(!(h < cells.columns@[k as int].indices@.len() && cells.columns@[k as int].padding
                    < cells.columns@[k as int].cells@.len()));
                self.abort("index out of bounds");
                return;
            }
            k += 1;
        }
        assert(delete_ok(*old(self), *old(cells)));
        cells.set_w_cell(wp, up);
        let ghost c1 = *cells;
        proof {
            assert forall|j: int| 0 <= j < nc implies h < (#[trigger] c1.columns@[j]).indices@.len()
                && c1.columns@[j].padding < c1.columns@[j].cells@.len() by {
                assert(c1.col_meta()[j] == old(cells).col_meta()[j]);
            }
        }
        let mut k: usize = 0;
        while k < nc
            invariant
                k <= nc,
                nc == cells.columns@.len(),
                nc == c1.columns@.len(),
                cells.wf(),
                c1.wf(),
                forall|j: int|
                    0 <= j < nc ==> h < (#[trigger] c1.columns@[j]).indices@.len() && c1.columns@[j].padding
                        < c1.columns@[j].cells@.len(),
                forall|j: int|
                    0 <= j < k ==> {
                        &&& (#[trigger] cells.columns@[j]).rows() == c1.columns@[j].rows().remove(h as int)
                        &&& cells.columns@[j].cells@.len() == c1.columns@[j].cells@.len() - 1
                        &&& cells.columns@[j].start == c1.columns@[j].start
                        &&& cells.columns@[j].width == c1.columns@[j].width
                        &&& cells.columns@[j].padding == c1.columns@[j].padding
                    },
                forall|j: int| k <= j < nc ==> #[trigger] cells.columns@[j] == c1.columns@[j],
                *cells == (Cells { columns: cells.columns, ..c1 }),
            decreases nc - k,
        {
            let ghost before = *cells;
            let _ = cells.get_column(k).remove_cell(h);
            proof {
                assert forall|j: int| 0 <= j < cells.columns@.len() implies (#[trigger] cells.columns@[j]).wf() by {
                    if j != k {
                        assert(cells.columns@[j] == before.columns@[j]);
                    } else {
                        assert(c1.columns@[j].wf());
                    }
                }
            }
            k += 1;
        }
        let ghost c2 = *cells;
        assert(rows_removed(c1, c2, h as int));
        cells.written = true;
        self.num_rows = self.num_rows - 1;
        let ghost s1 = *self;
        if self.h_offset < crate::cells::sat_sub_exec(self.num_rows, self.h_page) {
            self.draw_rows(cells);
        } else {
            self.h_offset = crate::cells::sat_sub_exec(self.h_offset, 1);
            self.draw_screen(cells);
        }
        let ghost s2 = *self;
        let ghost c3 = *cells;
        if self.is_aborted() {
            assert(w_cell_moved(*old(cells), c1, wp, up));
            assert(reported_after(s2, "Removed row "@ + crate::text::hex4_text(h as nat), *self));
            return;
        }
        let mut t = String::new();
        crate::text::push_text(&mut t, "Removed row ");
        crate::text::push_hex4(&mut t, h);
        assert(t@ =~= "Removed row "@ + crate::text::hex4_text(h as nat));
        self.push_bottom(t.as_str());
        let ghost m = *self;
        self.flush();
        assert(crate::commands::bottom_set(s2, "Removed row "@ + crate::text::hex4_text(h as nat), m));
        assert(reported_after(s2, "Removed row "@ + crate::text::hex4_text(h as nat), *self));
        assert(w_cell_moved(*old(cells), c1, wp, up));
    }
}


/// What reading a row range gives: the two row numbers as written, a token
/// that is no number (with what reading it gave), or a panic.
pub enum RangeRead {
    Rows(nat, nat),
    Bad(crate::parse::DecOut, Seq<char>),
    Panic,
}

/// The tokens of a range split on its first `-` or `+`, with that character;
/// `None` where the split cuts inside a character.
pub open spec fn range_tokens(r: Seq<char>) -> Option<(Seq<Seq<char>>, Option<char>)> {
    match crate::parse::range_delim(r) {
        Some((_, ch)) => if crate::parse::tokens_ok(r, ch) {
            Some(
                (
                    Seq::new(
                        crate::parse::token_ranges(r, ch).len(),
                        |k: int| crate::parse::token_text(r, ch, k),
                    ),
                    Some(ch),
                ),
            )
        } else {
            None
        },
        None => Some((seq![r], None)),
    }
}

/// The first row of a range: empty for the first row, `_` for the focused
/// row `hp`, else a number.
pub open spec fn bound_read(t: Seq<char>, hp: usize) -> crate::parse::DecOut {
    if t.len() == 0 {
        crate::parse::DecOut::Val(0)
    } else if t == "_"@ {
        crate::parse::DecOut::Val(hp as nat)
    } else {
        crate::parse::dec_read(t)
    }
}

/// A row range as written in a command: one row; two rows joined by `-`;
/// a row, `+` and how many more rows. An empty second part means the last of
/// the `nrows` rows.
pub open spec fn row_range(r: Seq<char>, hp: usize, nrows: usize) -> RangeRead {
    match range_tokens(r) {
        None => RangeRead::Panic,
        Some((toks, d)) => match bound_read(toks[0], hp) {
            crate::parse::DecOut::Panic => RangeRead::Panic,
            crate::parse::DecOut::Val(lo) => if toks.len() < 2 {
                RangeRead::Rows(lo, lo)
            } else if toks[1].len() == 0 {
                if nrows == 0 {
                    RangeRead::Panic
                } else {
                    RangeRead::Rows(lo, (nrows - 1) as nat)
                }
            } else {
                match crate::parse::dec_read(toks[1]) {
                    crate::parse::DecOut::Val(v) => match d {
                        Some(c) => if c == '-' {
                            RangeRead::Rows(lo, v)
                        } else if c == '+' {
                            if lo + v > usize::MAX {
                                RangeRead::Panic
                            } else {
                                RangeRead::Rows(lo, lo + v)
                            }
                        } else {
                            RangeRead::Rows(lo, lo)
                        },
                        None => RangeRead::Rows(lo, lo),
                    },
                    crate::parse::DecOut::Panic => RangeRead::Panic,
                    e => RangeRead::Bad(e, toks[1]),
                }
            },
            e => RangeRead::Bad(e, toks[0]),
        },
    }
}

/// Whether `e` is the error for a token `t` that read as `d`.
pub open spec fn read_error(e: crate::cmd_err::CmdErr, d: crate::parse::DecOut, t: Seq<char>) -> bool {
    match d {
        crate::parse::DecOut::BadHex(c) => e == crate::cmd_err::CmdErr::InvalidHex(c),
        crate::parse::DecOut::BadDec => e is InvalidDec && e->InvalidDec_0@ == t,
        _ => false,
    }
}

/// Reads a number or, when empty or `_`, the first row or the focused one.
fn read_bound<'a>(t: &'a str, hp: usize) -> (r: Option<Result<usize, crate::cmd_err::CmdErr<'a>>>)
    ensures
        bound_read(t@, hp) matches crate::parse::DecOut::Val(v) ==> r == Some(
            Ok::<usize, crate::cmd_err::CmdErr<'a>>(v as usize),
        ) && v <= usize::MAX,
        bound_read(t@, hp) is Panic ==> r is None,
        !(bound_read(t@, hp) is Val || bound_read(t@, hp) is Panic) ==> (r matches Some(Err(e)) && read_error(
            e,
            bound_read(t@, hp),
            t@,
        )),
{
    if t.unicode_len() == 0 {
        return Some(Ok(0));
    }
    proof {
        reveal_strlit("_");
    }
    if crate::text::same_text(t, "_") {
        return Some(Ok(hp));
    }
    crate::parse::str_to_dec(t)
}

impl WinInfo {
    /// Reads a row range (see `row_range`); `None` where reading panics.
    pub fn parse_row_range<'a>(&self, range: &'a str) -> (r: Option<Result<(usize, usize), crate::cmd_err::CmdErr<'a>>>)
        ensures
            match row_range(range@, self.h_pointer, self.num_rows) {
                RangeRead::Panic => r is None,
                RangeRead::Rows(a, b) => r == Some(Ok::<(usize, usize), crate::cmd_err::CmdErr<'a>>((a as usize, b as usize)))
                    && a <= usize::MAX && b <= usize::MAX,
                RangeRead::Bad(d, t) => r matches Some(Err(e)) && read_error(e, d, t),
            },
    {
        let (toks, delim) = match crate::parse::tokenize_range(range) {
            Some(x) => x,
            None => {
                return None;
            },
        };
        proof {
            match crate::parse::range_delim(range@) {
                Some((_, ch)) => {
                    assert(toks@.len() >= 1);
                },
                None => {},
            }
            let rt = range_tokens(range@)->0;
            assert(rt.0.len() == toks@.len());
            assert forall|k: int| 0 <= k < toks@.len() implies rt.0[k] == (#[trigger] toks@[k])@ by {}
            assert(rt.1 == delim);
        }
        let t0 = toks[0];
        let lo = match read_bound(t0, self.h_pointer) {
            None => {
                return None;
            },
            Some(Err(e)) => {
                return Some(Err(e));
            },
            Some(Ok(v)) => v,
        };
        if toks.len() < 2 {
            return Some(Ok((lo, lo)));
        }
        let t1 = toks[1];
        if t1.unicode_len() == 0 {
            if self.num_rows == 0 {
                return None;
            }
            return Some(Ok((lo, self.num_rows - 1)));
        }
        let v = match crate::parse::str_to_dec(t1) {
            None => {
                return None;
            },
            Some(Err(e)) => {
                return Some(Err(e));
            },
            Some(Ok(v)) => v,
        };
        match delim {
            Some(c) => {
                if c == '-' {
                    Some(Ok((lo, v)))
                } else if c == '+' {
                    if lo > usize::MAX - v {
                        None
                    } else {
                        Some(Ok((lo, lo + v)))
                    }
                } else {
                    Some(Ok((lo, lo)))
                }
            },
            None => Some(Ok((lo, lo))),
        }
    }
}


/// `s` with the elements at `a` and `b` exchanged.
pub open spec fn swap_at<T>(s: Seq<T>, a: int, b: int) -> Seq<T> {
    s.update(a, s[b]).update(b, s[a])
}

/// `s` after exchanging, for each `i` below `n` in turn, the elements at
/// `a - i` and `b - i`.
pub open spec fn swaps_back<T>(s: Seq<T>, a: int, b: int, n: nat) -> Seq<T>
    decreases n,
{
    if n == 0 {
        s
    } else {
        swap_at(swaps_back(s, a, b, (n - 1) as nat), a - (n - 1), b - (n - 1))
    }
}

/// `s` after exchanging, for each `i` below `n` in turn, the elements at
/// `a + i` and `b + i`.
pub open spec fn swaps_fwd<T>(s: Seq<T>, a: int, b: int, n: nat) -> Seq<T>
    decreases n,
{
    if n == 0 {
        s
    } else {
        swap_at(swaps_fwd(s, a, b, (n - 1) as nat), a + (n - 1), b + (n - 1))
    }
}

/// `s` with the element at `a` moved to `b` (see `rotate_up`), `n` times.
pub open spec fn rotated_up<T>(s: Seq<T>, a: int, b: int, n: nat) -> Seq<T>
    decreases n,
{
    if n == 0 {
        s
    } else {
        crate::cells::rotate_up(rotated_up(s, a, b, (n - 1) as nat), a, b)
    }
}

/// `s` with the element at `a` moved to `b` (see `rotate_down`), `n` times.
pub open spec fn rotated_down<T>(s: Seq<T>, a: int, b: int, n: nat) -> Seq<T>
    decreases n,
{
    if n == 0 {
        s
    } else {
        crate::cells::rotate_down(rotated_down(s, a, b, (n - 1) as nat), a, b)
    }
}

/// The row order `s` after the rows `lo..=hi` were moved to start at row
/// `t`: the block is exchanged with the rows it lands on (from its far end
/// when moving down, from its near end when moving up); when the two do not
/// overlap, the rows that were passed over are then rotated back into the gap
/// the block left, one row per moved row.
pub open spec fn moved_order<T>(s: Seq<T>, lo: int, hi: int, t: int) -> Seq<T> {
    let n = hi + 1 - lo;
    let th = t + n - 1;
    let apart = lo > th || t > hi;
    if t > lo {
        let s1 = swaps_back(s, hi, th, n as nat);
        if apart {
            rotated_up(s1, lo, t - 1, n as nat)
        } else {
            s1
        }
    } else {
        let s1 = swaps_fwd(s, lo, t, n as nat);
        if apart {
            rotated_down(s1, hi, th + 1, n as nat)
        } else {
            s1
        }
    }
}

/// `ind` followed by the `n` next storage positions.
pub open spec fn extended(ind: Seq<usize>, n: nat) -> Seq<usize> {
    ind + Seq::new(n, |i: int| (ind.len() + i) as usize)
}

/// How many empty rows a move of rows `lo..=hi` to row `t` adds to a sheet
/// of `nr` rows.
pub open spec fn rows_added(lo: nat, hi: nat, t: nat, nr: usize) -> usize {
    crate::cells::sat_sub((t + 1 + hi - lo) as usize, nr)
}

/// The sheet `f` is `o` with `n` empty rows added at the end of every column
/// and then rows `lo..=hi` moved to start at row `t`.
pub open spec fn rows_moved(o: Cells, f: Cells, lo: int, hi: int, t: int, n: nat) -> bool {
    &&& f.wf()
    &&& f.columns@.len() == o.columns@.len()
    &&& forall|k: int|
        0 <= k < o.columns@.len() ==> {
            &&& crate::cells::cells_model((#[trigger] f.columns@[k]).cells@) == crate::cells::cells_model(
                o.columns@[k].cells@,
            ) + blanks(n)
            &&& f.columns@[k].indices@ == moved_order(extended(o.columns@[k].indices@, n), lo, hi, t)
            &&& f.columns@[k].start == o.columns@[k].start
            &&& f.columns@[k].width == o.columns@[k].width
            &&& f.columns@[k].padding == o.columns@[k].padding
        }
    &&& f == (Cells { columns: f.columns, ..o })
}

/// Whether a move of rows `lo..=hi` to row `t` can run to its end: the
/// focused cell exists, the sums stay in range, and every column (with the
/// added rows) reaches both blocks.
pub open spec fn move_ok(s: WinInfo, c: Cells, lo: nat, hi: nat, t: nat) -> bool {
    let n = hi + 1 - lo;
    let th = t + n - 1;
    &&& c.has_cell(c.w_cell.0, c.w_cell.1)
    &&& t + 1 + hi <= usize::MAX
    &&& crate::terminal::small((s.num_rows + rows_added(lo, hi, t, s.num_rows)) as usize)
    &&& s.num_rows + rows_added(lo, hi, t, s.num_rows) <= usize::MAX
    &&& t + n <= usize::MAX
    &&& (t <= lo ==> th + 1 < usize::MAX)
    &&& forall|k: int|
        0 <= k < c.columns@.len() ==> {
            let len = (#[trigger] c.columns@[k]).indices@.len() + rows_added(lo, hi, t, s.num_rows);
            &&& len <= usize::MAX
            &&& hi < len
            &&& th < len
        }
}

impl Column {
    /// Adds `n` empty rows at the end, then moves rows `lo..=hi` to start at
    /// row `t` (see `moved_order`).
    pub fn move_block(&mut self, lo: usize, hi: usize, t: usize, n: usize)
        requires
            old(self).wf(),
            lo <= hi,
            t + (hi + 1 - lo) <= usize::MAX,
            t <= lo ==> t + (hi + 1 - lo) < usize::MAX,
            old(self).indices@.len() + n <= usize::MAX,
            hi < old(self).indices@.len() + n,
            t + (hi + 1 - lo) - 1 < old(self).indices@.len() + n,
        ensures
            final(self).wf(),
            crate::cells::cells_model(final(self).cells@) == crate::cells::cells_model(old(self).cells@) + blanks(
                n as nat,
            ),
            final(self).indices@ == moved_order(extended(old(self).indices@, n as nat), lo as int, hi as int, t as int),
            final(self).start == old(self).start,
            final(self).width == old(self).width,
            final(self).padding == old(self).padding,
    {
        let mut j: usize = 0;
        while j < n
            invariant
                j <= n,
                old(self).indices@.len() + n <= usize::MAX,
                old(self).wf(),
                self.wf(),
                crate::cells::cells_model(self.cells@) == crate::cells::cells_model(old(self).cells@) + blanks(
                    j as nat,
                ),
                self.indices@ == extended(old(self).indices@, j as nat),
                self.start == old(self).start,
                self.width == old(self).width,
                self.padding == old(self).padding,
            decreases n - j,
        {
            let c = Cell::new("");
            proof {
                reveal_strlit("");
            }
            let ghost prev = self.cells@;
            self.push_cell(c);
            proof {
                assert(crate::cells::cells_model(self.cells@) =~= crate::cells::cells_model(prev).push(
                    crate::cells::new_cell_model(Seq::empty()),
                ));
                assert(blanks((j + 1) as nat) =~= blanks(j as nat).push(crate::cells::new_cell_model(Seq::empty())));
                assert(crate::cells::cells_model(self.cells@) =~= crate::cells::cells_model(old(self).cells@)
                    + blanks((j + 1) as nat));
                assert(self.indices@ =~= extended(old(self).indices@, (j + 1) as nat));
            }
            j += 1;
        }
        let ghost s0 = self.indices@;
        let range = hi + 1 - lo;
        let th = t + range - 1;
        let apart = lo > th || t > hi;
        if t > lo {
            let mut i: usize = 0;
            while i < range
                invariant
                    i <= range,
                    range == hi + 1 - lo,
                    th == t + range - 1,
                    hi < s0.len(),
                    th < s0.len(),
                    self.indices@.len() == s0.len(),
                    self.wf(),
                    self.indices@ == swaps_back(s0, hi as int, th as int, i as nat),
                    self.start == old(self).start,
                    self.width == old(self).width,
                    self.padding == old(self).padding,
                    crate::cells::cells_model(self.cells@) == crate::cells::cells_model(old(self).cells@) + blanks(
                        n as nat,
                    ),
                decreases range - i,
            {
                self.swap_cells(hi - i, th - i);
                i += 1;
            }
            let ghost s1 = self.indices@;
            if apart {
                let mut i: usize = 0;
                while i < range
                    invariant
                        i <= range,
                        lo < t,
                        t - 1 < th,
                        th < s1.len(),
                        self.indices@.len() == s1.len(),
                        self.wf(),
                        self.indices@ == rotated_up(s1, lo as int, t - 1, i as nat),
                        self.start == old(self).start,
                        self.width == old(self).width,
                        self.padding == old(self).padding,
                        crate::cells::cells_model(self.cells@) == crate::cells::cells_model(old(self).cells@)
                            + blanks(n as nat),
                    decreases range - i,
                {
                    self.bubble_up(lo, t - 1);
                    i += 1;
                }
            }
        } else {
            let mut i: usize = 0;
            while i < range
                invariant
                    i <= range,
                    range == hi + 1 - lo,
                    th == t + range - 1,
                    hi < s0.len(),
                    th < s0.len(),
                    lo <= hi,
                    t <= lo,
                    self.indices@.len() == s0.len(),
                    self.wf(),
                    self.indices@ == swaps_fwd(s0, lo as int, t as int, i as nat),
                    self.start == old(self).start,
                    self.width == old(self).width,
                    self.padding == old(self).padding,
                    crate::cells::cells_model(self.cells@) == crate::cells::cells_model(old(self).cells@) + blanks(
                        n as nat,
                    ),
                decreases range - i,
            {
                self.swap_cells(lo + i, t + i);
                i += 1;
            }
            let ghost s1 = self.indices@;
            if apart {
                let mut i: usize = 0;
                while i < range
                    invariant
                        i <= range,
                        th + 1 < usize::MAX,
                        hi < s1.len(),
                        self.indices@.len() == s1.len(),
                        self.wf(),
                        self.indices@ == rotated_down(s1, hi as int, th + 1, i as nat),
                        self.start == old(self).start,
                        self.width == old(self).width,
                        self.padding == old(self).padding,
                        crate::cells::cells_model(self.cells@) == crate::cells::cells_model(old(self).cells@)
                            + blanks(n as nat),
                    decreases range - i,
                {
                    self.bubble_down(hi, th + 1);
                    i += 1;
                }
            }
        }
    }
}


/// `min(a, b)` and `max(a, b)`.
pub open spec fn ordered(a: nat, b: nat) -> (nat, nat) {
    if a <= b {
        (a, b)
    } else {
        (b, a)
    }
}

/// What `move_rows` does to the window `win0` and the sheet `sheet0`,
/// giving `win1` and `sheet1`.
pub open spec fn move_rows_outcome(win0: WinInfo, sheet0: Cells, range: &str, target: &str, win1: WinInfo, sheet1: Cells) -> bool {
    &&& ({
        let nr = win0.num_rows;
        match row_range(range@, win0.h_pointer, nr) {
            RangeRead::Panic => win1.request is Abort,
            RangeRead::Bad(d, tk) => sheet1 == sheet0 && exists|e: crate::cmd_err::CmdErr|
                #[trigger] crate::commands::reported(win0, e, win1) && read_error(e, d, tk),
            RangeRead::Rows(a, b) => {
                let (lo, hi) = ordered(a, b);
                if lo >= nr {
                    sheet1 == sheet0 && crate::commands::reported(
                        win0,
                        crate::cmd_err::CmdErr::InvalidIndex(lo as usize),
                        win1,
                    )
                } else if hi >= nr {
                    sheet1 == sheet0 && crate::commands::reported(
                        win0,
                        crate::cmd_err::CmdErr::InvalidIndex(hi as usize),
                        win1,
                    )
                } else {
                    match crate::parse::dec_read(target@) {
                        crate::parse::DecOut::Panic => win1.request is Abort,
                        crate::parse::DecOut::Val(t) => if !move_ok(win0, sheet0, lo, hi, t) {
                            win1.request is Abort
                        } else {
                            exists|c1: Cells, c2: Cells|
                                {
                                    &&& #[trigger] crate::commands::focus_cleared(sheet0, c1)
                                    &&& #[trigger] rows_moved(
                                        c1,
                                        c2,
                                        lo as int,
                                        hi as int,
                                        t as int,
                                        rows_added(lo, hi, t, nr) as nat,
                                    )
                                    &&& crate::commands::screen_redrawn(
                                        WinInfo { num_rows: (nr + rows_added(lo, hi, t, nr)) as usize, ..win0 },
                                        Cells { written: true, ..c2 },
                                        win1,
                                        sheet1,
                                    )
                                }
                        },
                        d => sheet1 == sheet0 && exists|e: crate::cmd_err::CmdErr|
                            #[trigger] crate::commands::reported(win0, e, win1) && read_error(
                                e,
                                d,
                                target@,
                            ),
                    }
                }
            },
        }
    })
}

impl WinInfo {
    /// Moves the rows of `range` (see `row_range`) so that they start at row
    /// `target`, adding empty rows at the end when they would run past the
    /// last one, and draws the sheet again; else shows why not.
    #[verifier::rlimit(100)]
    #[verifier::spinoff_prover]
    #[verifier::loop_isolation(false)]
    pub fn move_rows(&mut self, cells: &mut Cells, range: &str, target: &str)
        requires
            old(self).wf(),
            old(cells).wf(),
            !(old(self).request is Abort),
        ensures
            final(self).wf(),
            final(cells).wf(),
            move_rows_outcome(*old(self), *old(cells), range, target, *final(self), *final(cells)),
    {
        let (a, b) = match self.parse_row_range(range) {
            None => {
                self.abort("called `Result::unwrap()` on an `Err` value");
                return;
            },
            Some(Err(e)) => {
                self.report(&e);
                return;
            },
            Some(Ok(x)) => x,
        };
        let lo = if a <= b {
            a
        } else {
            b
        };
        let hi = if a <= b {
            b
        } else {
            a
        };
        let nr = self.num_rows;
        if lo >= nr {
            self.report(&crate::cmd_err::CmdErr::InvalidIndex(lo));
            return;
        }
        if hi >= nr {
            self.report(&crate::cmd_err::CmdErr::InvalidIndex(hi));
            return;
        }
        let t = match crate::parse::str_to_dec(target) {
            None => {
                self.abort("called `Result::unwrap()` on an `Err` value");
                return;
            },
            Some(Err(e)) => {
                self.report(&e);
                return;
            },
            Some(Ok(v)) => v,
        };
        let ghost c0 = *cells;
        self.unfocus(cells);
        if self.is_aborted() {
            return;
        }
        let ghost c1 = *cells;
        if t >= usize::MAX - hi {
            self.abort("attempt to add with overflow");
            return;
        }
        let new_rows = crate::cells::sat_sub_exec(t + 1 + hi - lo, nr);
        if new_rows > usize::MAX / 16 || nr > usize::MAX / 16 - new_rows {
            self.abort("attempt to add with overflow");
            return;
        }
        let range = hi + 1 - lo;
        if t > usize::MAX - range || (t <= lo && t + range == usize::MAX) {
            self.abort("attempt to add with overflow");
            return;
        }
        let th = t + range - 1;
        let nc = cells.columns.len();
        let mut k: usize = 0;
        while k < nc
            invariant
                k <= nc,
                nc == cells.columns@.len(),
                *cells == c1,
                *self == *old(self),
                forall|j: int|
                    0 <= j < k ==> {
                        let len = (#[trigger] cells.columns@[j]).indices@.len() + new_rows;
                        &&& len <= usize::MAX
                        &&& hi < len
                        &&& th < len
                    },
            decreases nc - k,
        {
            let len = cells.columns[k].indices.len();
            if len > usize::MAX - new_rows || hi >= len + new_rows || th >= len + new_rows {
                proof {
                    assert(c1.columns@[k as int].indices@ == c0.columns@[k as int].indices@);
                    let l2 = c0.columns@[k as int].indices@.len() + rows_added(lo as nat, hi as nat, t as nat, nr);
                    assert(!(l2 <= usize::MAX && hi < l2 && th < l2));
                    assert(!move_ok(*old(self), c0, lo as nat, hi as nat, t as nat));
                }
                self.abort("index out of bounds");
                return;
            }
            k += 1;
        }
        proof {
            assert(move_ok(*old(self), c0, lo as nat, hi as nat, t as nat)) by {
                assert forall|j: int| 0 <= j < c0.columns@.len() implies {
                    let len = (#[trigger] c0.columns@[j]).indices@.len() + rows_added(lo as nat, hi as nat, t as nat, nr);
                    &&& len <= usize::MAX
                    &&& hi < len
                    &&& th < len
                } by {
                    assert(c1.columns@[j].indices@ == c0.columns@[j].indices@);
                }
            }
        }
        let mut k: usize = 0;
        while k < nc
            invariant
                k <= nc,
                nc == cells.columns@.len(),
                nc == c1.columns@.len(),
                lo <= hi,
                range == hi + 1 - lo,
                th == t + range - 1,
                t + range <= usize::MAX,
                t <= lo ==> t + range < usize::MAX,
                cells.wf(),
                c1.wf(),
                forall|j: int|
                    0 <= j < nc ==> {
                        let len = (#[trigger] c1.columns@[j]).indices@.len() + new_rows;
                        &&& len <= usize::MAX
                        &&& hi < len
                        &&& th < len
                    },
                forall|j: int|
                    0 <= j < k ==> {
                        &&& crate::cells::cells_model((#[trigger] cells.columns@[j]).cells@) == crate::cells::cells_model(
                            c1.columns@[j].cells@,
                        ) + blanks(new_rows as nat)
                        &&& cells.columns@[j].indices@ == moved_order(
                            extended(c1.columns@[j].indices@, new_rows as nat),
                            lo as int,
                            hi as int,
                            t as int,
                        )
                        &&& cells.columns@[j].start == c1.columns@[j].start
                        &&& cells.columns@[j].width == c1.columns@[j].width
                        &&& cells.columns@[j].padding == c1.columns@[j].padding
                    },
                forall|j: int| k <= j < nc ==> #[trigger] cells.columns@[j] == c1.columns@[j],
                *cells == (Cells { columns: cells.columns, ..c1 }),
            decreases nc - k,
        {
            let ghost before = *cells;
            proof {
                assert(c1.columns@[k as int].wf());
            }
            cells.get_column(k).move_block(lo, hi, t, new_rows);
            proof {
                assert forall|j: int| 0 <= j < cells.columns@.len() implies (#[trigger] cells.columns@[j]).wf() by {
                    if j != k {
                        assert(cells.columns@[j] == before.columns@[j]);
                    }
                }
            }
            k += 1;
        }
        let ghost c2 = *cells;
        assert(rows_moved(c1, c2, lo as int, hi as int, t as int, new_rows as nat));
        cells.written = true;
        self.num_rows = nr + new_rows;
        self.redraw_screen(cells);
        assert(crate::commands::focus_cleared(c0, c1));
    }
}

} // verus!

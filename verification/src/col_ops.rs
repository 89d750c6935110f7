//! Column commands that change the sheet: adding, removing, grouping and
//! moving columns, and keeping one row per distinct value.
use vstd::prelude::*;

use crate::cells::{Cell, Cells, Column};
use crate::cmd_err::CmdErr;
use crate::row_ops::blanks;
use crate::terminal::WinInfo;

verus! {

/// The column ids `f` are `o` with every id from `from` on given the width of
/// the column name at its position.
pub open spec fn ids_aligned(o: Seq<Cell>, f: Seq<Cell>, header: Seq<Cell>, from: int) -> bool {
    &&& f.len() == o.len()
    &&& forall|i: int| 0 <= i < o.len() && i < from ==> #[trigger] f[i] == o[i]
    &&& forall|i: int| from <= i < o.len() ==> #[trigger] f[i] == (Cell { width: header[i].width, ..o[i] })
}

impl Cells {
    /// Gives every column id from `from` on the width of the column name at
    /// its position.
    pub fn align_col_ids(&mut self, from: usize)
        requires
            old(self).col_ids@.len() <= old(self).header@.len(),
        ensures
            ids_aligned(old(self).col_ids@, final(self).col_ids@, old(self).header@, from as int),
            *final(self) == (Cells { col_ids: final(self).col_ids, ..*old(self) }),
    {
        let n = self.col_ids.len();
        let mut i = from;
        while i < n
            invariant
                n == old(self).col_ids@.len(),
                n <= self.header@.len(),
                from <= i,
                self.col_ids@.len() == n,
                forall|j: int| 0 <= j < n && (j < from || j >= i) ==> #[trigger] self.col_ids@[j] == old(
                    self,
                ).col_ids@[j],
                forall|j: int| from <= j < i && j < n ==> #[trigger] self.col_ids@[j] == (Cell {
                    width: self.header@[j].width,
                    ..old(self).col_ids@[j]
                }),
                *self == (Cells { col_ids: self.col_ids, ..*old(self) }),
            decreases n - i,
        {
            let w = self.header[i].width;
            let c = self.col_id_mut(i);
            c.width = w;
            i += 1;
        }
    }
}

impl Column {
    /// A new column of 256 empty cells followed by `n` more.
    pub fn with_blank_rows(n: usize) -> (c: Self)
        requires
            n + 256 <= usize::MAX,
        ensures
            c.wf(),
            crate::cells::cells_model(c.cells@) == blanks((256 + n) as nat),
            c.indices@ == crate::cells::identity((256 + n) as nat),
            c.start == 0,
            c.width == 12,
            c.padding == 0,
    {
        let mut c = Column::new();
        proof {
            assert(crate::cells::cells_model(c.cells@) =~= blanks(256));
        }
        let mut j: usize = 0;
        while j < n
            invariant
                j <= n,
                n + 256 <= usize::MAX,
                c.wf(),
                crate::cells::cells_model(c.cells@) == blanks((256 + j) as nat),
                c.indices@ == crate::cells::identity((256 + j) as nat),
                c.start == 0,
                c.width == 12,
                c.padding == 0,
            decreases n - j,
        {
            let cell = Cell::new("");
            proof {
                reveal_strlit("");
            }
            let ghost prev = c.cells@;
            c.push_cell(cell);
            proof {
                assert(crate::cells::cells_model(c.cells@) =~= crate::cells::cells_model(prev).push(
                    crate::cells::new_cell_model(Seq::empty()),
                ));
                assert(crate::cells::cells_model(c.cells@) =~= blanks((256 + j + 1) as nat));
                assert(c.indices@ =~= crate::cells::identity((256 + j + 1) as nat));
            }
            j += 1;
        }
        c
    }
}

/// Whether `new_column` can run to its end on this window and sheet.
pub open spec fn new_column_ok(s: WinInfo, c: Cells, name: Seq<char>) -> bool {
    &&& name.len() > 0
    &&& c.has_cell(c.w_cell.0, c.w_cell.1)
    &&& s.num_rows + 256 <= usize::MAX
    &&& s.w_pointer <= c.columns@.len()
    &&& s.w_pointer <= c.header@.len()
    &&& c.col_ids@.len() <= c.header@.len()
    &&& crate::terminal::small((s.num_cols + 1) as usize)
}

/// The sheet `f` is `o` with a new empty column (256 plus `nr` rows) named
/// `name` put in at position `w`, the column ids lengthened by one and
/// aligned from `w` on, and the sheet marked as written.
pub open spec fn column_added(o: Cells, f: Cells, w: int, name: Seq<char>, nr: nat) -> bool {
    &&& f.columns@.len() == o.columns@.len() + 1
    &&& f.columns@.take(w) == o.columns@.take(w)
    &&& f.columns@.skip(w + 1) == o.columns@.skip(w)
    &&& crate::cells::cells_model(f.columns@[w].cells@) == blanks(256 + nr)
    &&& f.columns@[w].indices@ == crate::cells::identity(256 + nr)
    &&& f.columns@[w].start == 0 && f.columns@[w].width == 12 && f.columns@[w].padding == 0
    &&& f.header@.len() == o.header@.len() + 1
    &&& f.header@.take(w) == o.header@.take(w)
    &&& f.header@.skip(w + 1) == o.header@.skip(w)
    &&& crate::cells::cell_model(f.header@[w]) == crate::cells::new_cell_model(name)
    &&& exists|ids: Seq<Cell>|
        {
            &&& ids.len() == o.col_ids@.len() + 1
            &&& ids.take(o.col_ids@.len() as int) == o.col_ids@
            &&& crate::cells::cell_model(ids.last()) == crate::cells::new_cell_model(
                crate::csv_io::base26((o.col_ids@.len() as u32) as nat),
            )
            &&& #[trigger] ids_aligned(ids, f.col_ids@, f.header@, w)
        }
    &&& f == (Cells { columns: f.columns, header: f.header, col_ids: f.col_ids, written: true, ..o })
}

/// The window after a full draw of the sheet, an empty bottom line and a
/// flush.
pub open spec fn redrawn_blank_bottom(s1: WinInfo, c1: Cells, s3: WinInfo, c3: Cells) -> bool {
    exists|s2: WinInfo|
        {
            &&& #[trigger] crate::render::screen_drawn(s1, c1, s2, c3)
            &&& if s2.request is Abort {
                s3 == s2
            } else {
                let s2b = WinInfo { focused_content: s3.focused_content, ..s2 };
                &&& s3.focused_content@ == Seq::<char>::empty()
                &&& exists|m: WinInfo| #[trigger] crate::terminal::bottom_drawn(s2b, m) && crate::terminal::flushed(m, s3)
            }
        }
}

/// What `new_column` does to the window `win0` and the sheet `sheet0`,
/// giving `win1` and `sheet1`.
pub open spec fn new_column_outcome(win0: WinInfo, sheet0: Cells, name: &str, win1: WinInfo, sheet1: Cells) -> bool {
    &&& !new_column_ok(win0, sheet0, name@) ==> win1.request is Abort
    &&& new_column_ok(win0, sheet0, name@) ==> exists|c1: Cells, c2: Cells|
        {
            &&& #[trigger] crate::commands::focus_cleared(sheet0, c1)
            &&& #[trigger] column_added(
                c1,
                c2,
                win0.w_pointer as int,
                crate::parse::trimmed(name@),
                win0.num_rows as nat,
            )
            &&& redrawn_blank_bottom(
                WinInfo { num_cols: (win0.num_cols + 1) as usize, ..win0 },
                c2,
                win1,
                sheet1,
            )
        }
}

impl WinInfo {
    /// Puts a new empty column named `name` (without its quotes) in at the
    /// focused position and draws the sheet again with an empty bottom line.
    pub fn new_column(&mut self, cells: &mut Cells, name: &str)
        requires
            old(self).wf(),
            old(cells).wf(),
            !(old(self).request is Abort),
        ensures
            final(self).wf(),
            final(cells).wf(),
            new_column_outcome(*old(self), *old(cells), name, *final(self), *final(cells)),
    {
        let t = match self.trim_or_stop(name) {
            Some(t) => t,
            None => {
                return;
            },
        };
        let ghost c0 = *cells;
        self.unfocus(cells);
        if self.is_aborted() {
            return;
        }
        let ghost c1 = *cells;
        let wp = self.w_pointer;
        let nr = self.num_rows;
        if nr > usize::MAX - 256 || wp > cells.columns.len() || wp > cells.header.len() || cells.col_ids.len()
            > cells.header.len() || self.num_cols >= usize::MAX / 16 {
            self.abort("index out of bounds");
            return;
        }
        let col = Column::with_blank_rows(nr);
        cells.insert_column(wp, col);
        let cell = Cell::new(t.as_str());
        cells.insert_col_name(wp, cell);
        let ghost before_ids = *cells;
        cells.increment_col_ids();
        let ghost ids = cells.col_ids@;
        cells.align_col_ids(wp);
        cells.written = true;
        let ghost c2 = *cells;
        proof {
            assert(c2.columns@.take(wp as int) =~= c1.columns@.take(wp as int));
            assert(c2.columns@.skip(wp + 1) =~= c1.columns@.skip(wp as int));
            assert(c2.header@.take(wp as int) =~= c1.header@.take(wp as int));
            assert(c2.header@.skip(wp + 1) =~= c1.header@.skip(wp as int));
            assert(ids_aligned(ids, c2.col_ids@, c2.header@, wp as int));
            assert(column_added(c1, c2, wp as int, crate::parse::trimmed(name@), nr as nat));
            assert forall|k: int| 0 <= k < c2.columns@.len() implies (#[trigger] c2.columns@[k]).wf() by {
                if k < wp {
                    assert(c2.columns@[k] == c2.columns@.take(wp as int)[k]);
                    assert(c2.columns@[k] == c1.columns@[k]);
                } else if k > wp {
                    assert(c2.columns@[k] == c2.columns@.skip(wp + 1)[k - wp - 1]);
                    assert(c2.columns@[k] == c1.columns@[k - 1]);
                }
            }
        }
        self.num_cols = self.num_cols + 1;
        let ghost s1 = *self;
        self.draw_screen(cells);
        let ghost s2 = *self;
        if self.is_aborted() {
            assert(crate::commands::focus_cleared(c0, c1));
            assert(crate::render::screen_drawn(s1, c2, s2, *cells));
            return;
        }
        self.focused_content = String::new();
        let ghost s3 = *self;
        self.draw_focused_content();
        let ghost m = *self;
        self.flush();
        proof {
            assert(crate::commands::focus_cleared(c0, c1));
            assert(crate::terminal::bottom_drawn(s3, m));
            assert(crate::render::screen_drawn(s1, c2, s2, *cells));
        }
    }
}


/// The question `remove_column` asks about the column named `name`.
pub open spec fn remove_question(name: Seq<char>) -> Seq<char> {
    "\x1b[?25lConfirm remove column '"@ + name + "' with 'y': "@
}

/// Whether a confirmed `remove_column` can run to its end.
pub open spec fn remove_ok(s: WinInfo, c: Cells) -> bool {
    &&& s.num_cols >= 2
    &&& s.w_pointer < c.columns@.len()
    &&& s.w_pointer < c.header@.len()
    &&& c.col_ids@.len() <= c.header@.len()
}

/// The column ids after the last one was taken off (if any).
pub open spec fn ids_popped(ids: Seq<Cell>) -> Seq<Cell> {
    if ids.len() > 0 {
        ids.drop_last()
    } else {
        ids
    }
}

/// The sheet `f` is `o` with column `w` and its name taken out, the last
/// column id taken off and the others aligned from `w` on, the focus
/// position set to `(wp, hp)` and the sheet marked as written.
pub open spec fn column_removed(o: Cells, f: Cells, w: int, wp: usize, hp: usize) -> bool {
    &&& f.columns@ == o.columns@.remove(w)
    &&& f.header@ == o.header@.remove(w)
    &&& ids_aligned(ids_popped(o.col_ids@), f.col_ids@, f.header@, w)
    &&& f == (Cells { columns: f.columns, header: f.header, col_ids: f.col_ids, w_cell: (wp, hp), written: true, ..o })
}

/// The window after a full draw of the sheet and the text `t` on the bottom
/// line (not yet sent).
pub open spec fn drawn_then_bottom(s1: WinInfo, c1: Cells, t: Seq<char>, s3: WinInfo, c3: Cells) -> bool {
    exists|s2: WinInfo|
        #[trigger] crate::render::screen_drawn(s1, c1, s2, c3) && if s2.request is Abort {
            s3 == s2
        } else {
            crate::commands::bottom_set(s2, t, s3)
        }
}

/// What `remove_column` does, from the window `win0` to `win1`.
pub open spec fn remove_column_outcome(win0: WinInfo, cells: &Cells, win1: WinInfo) -> bool {
    &&& win0.num_cols == 1 ==> crate::commands::bottom_set(
        win0,
        "\x1b[?25lCannot remove the only column."@,
        win1,
    )
    &&& win0.num_cols != 1 && win0.w_pointer >= cells.header@.len() ==> win1.request is Abort
    &&& win0.num_cols != 1 && win0.w_pointer < cells.header@.len() ==> ({
        let name = cells.header@[win0.w_pointer as int].content@;
        exists|m: WinInfo|
            #[trigger] crate::commands::bottom_set(win0, remove_question(name), m) && crate::terminal::flushed(
                m,
                WinInfo { prompt: m.prompt, ..win1 },
            ) && (win1.prompt matches crate::terminal::Prompt::RemoveColumn(n) && n@ == name)
    })
}

/// What `confirm_remove_column` does to the window `win0` and the sheet `sheet0`,
/// giving `win1` and `sheet1`.
pub open spec fn confirm_remove_column_outcome(win0: WinInfo, sheet0: Cells, yes: bool, name: Seq<char>, win1: WinInfo, sheet1: Cells) -> bool {
    &&& !yes ==> sheet1 == sheet0 && crate::commands::bottom_set(
        win0,
        "Column '"@ + name + "' was not removed."@,
        win1,
    )
    &&& yes && !remove_ok(win0, sheet0) ==> win1.request is Abort
    &&& yes && remove_ok(win0, sheet0) ==> ({
        let nc = (win0.num_cols - 1) as usize;
        let wp = win0.w_pointer;
        let wp2 = (wp - crate::cells::sat_sub(wp, (nc - 1) as usize)) as usize;
        exists|c1: Cells|
            #[trigger] column_removed(sheet0, c1, wp as int, wp2, win0.h_pointer) && drawn_then_bottom(
                WinInfo { num_cols: nc, w_pointer: wp2, ..win0 },
                c1,
                "Removed column '"@ + name + "'"@,
                win1,
                sheet1,
            )
    })
}

impl WinInfo {
    /// Asks to confirm removing the focused column (unless it is the only
    /// one) and waits for the answer.
    pub fn remove_column(&mut self, cells: &Cells)
        requires
            old(self).wf(),
        ensures
            final(self).wf(),
            remove_column_outcome(*old(self), cells, *final(self)),
    {
        if self.num_cols == 1 {
            self.push_bottom("\x1b[?25lCannot remove the only column.");
            return;
        }
        if self.w_pointer >= cells.header.len() {
            self.abort("index out of bounds");
            return;
        }
        let name = crate::text::text_of(cells.header[self.w_pointer].content.as_str());
        let mut t = String::new();
        crate::text::push_text(&mut t, "\x1b[?25lConfirm remove column '");
        crate::text::push_text(&mut t, name.as_str());
        crate::text::push_text(&mut t, "' with 'y': ");
        assert(t@ =~= remove_question(name@));
        self.push_bottom(t.as_str());
        let ghost m = *self;
        self.flush();
        self.prompt = crate::terminal::Prompt::RemoveColumn(name);
        assert(crate::commands::bottom_set(*old(self), remove_question(name@), m));
    }

    /// Removes the focused column (named `name`) when `yes`, keeping the focus
    /// on a column that exists, and draws the sheet again; else says the
    /// column was kept.
    pub fn confirm_remove_column(&mut self, cells: &mut Cells, yes: bool, name: &str)
        requires
            old(self).wf(),
            old(cells).wf(),
            !(old(self).request is Abort),
        ensures
            final(self).wf(),
            final(cells).wf(),
            confirm_remove_column_outcome(*old(self), *old(cells), yes, name@, *final(self), *final(cells)),
    {
        if !yes {
            let mut t = String::new();
            crate::text::push_text(&mut t, "Column '");
            crate::text::push_text(&mut t, name);
            crate::text::push_text(&mut t, "' was not removed.");
            assert(t@ =~= "Column '"@ + name@ + "' was not removed."@);
            self.push_bottom(t.as_str());
            return;
        }
        let wp = self.w_pointer;
        if self.num_cols < 2 || wp >= cells.columns.len() || wp >= cells.header.len() || cells.col_ids.len()
            > cells.header.len() {
            self.abort("index out of bounds");
            return;
        }
        let ghost c0 = *cells;
        let _col = cells.columns.remove(wp);
        let _name = cells.header.remove(wp);
        let _id = cells.col_ids.pop();
        proof {
            assert(cells.col_ids@ == ids_popped(c0.col_ids@));
        }
        let ghost ids = cells.col_ids@;
        cells.align_col_ids(wp);
        cells.written = true;
        self.num_cols = self.num_cols - 1;
        self.w_pointer = self.w_pointer - crate::cells::sat_sub_exec(self.w_pointer, self.num_cols - 1);
        cells.w_cell = (self.w_pointer, self.h_pointer);
        let ghost c1 = *cells;
        proof {
            assert(column_removed(c0, c1, wp as int, self.w_pointer, self.h_pointer));
            assert forall|k: int| 0 <= k < c1.columns@.len() implies (#[trigger] c1.columns@[k]).wf() by {
                if k < wp {
                    assert(c1.columns@[k] == c0.columns@[k]);
                } else {
                    assert(c1.columns@[k] == c0.columns@[k + 1]);
                }
            }
        }
        let ghost s1 = *self;
        self.draw_screen(cells);
        let ghost s2 = *self;
        if self.is_aborted() {
            assert(crate::render::screen_drawn(s1, c1, s2, *cells));
            return;
        }
        let mut t = String::new();
        crate::text::push_text(&mut t, "Removed column '");
        crate::text::push_text(&mut t, name);
        crate::text::push_text(&mut t, "'");
        assert(t@ =~= "Removed column '"@ + name@ + "'"@);
        self.push_bottom(t.as_str());
        assert(crate::render::screen_drawn(s1, c1, s2, *cells));
    }
}


/// The bottom-line report of `uq` distinct values in the column `name`.
pub open spec fn unique_report(uq: usize, name: Seq<char>) -> Seq<char> {
    "\x1b[?25l"@ + crate::text::dec_text(uq as nat) + " unique "@ + "values"@.take(
        6 - crate::cells::sat_sub(2, uq),
    ) + " in '"@ + name + "'"@
}

/// The sheet `f` is `o` with column `k` replaced by `col`.
pub open spec fn column_set(o: Cells, f: Cells, k: int, col: Column) -> bool {
    &&& f.columns@ == o.columns@.update(k, col)
    &&& f == (Cells { columns: f.columns, ..o })
}

/// What `show_unique_column_values` does to the window `win0` and the sheet `sheet0`,
/// giving `win1` and `sheet1`.
pub open spec fn show_unique_column_values_outcome(win0: WinInfo, sheet0: Cells, win1: WinInfo, sheet1: Cells) -> bool {
    &&& ({
        let wp = win0.w_pointer;
        if wp >= sheet0.columns@.len() || wp >= sheet0.header@.len() {
            win1.request is Abort
        } else {
            exists|col: Column, uq: usize|
                {
                    &&& #[trigger] crate::cells::unique_post(sheet0.columns@[wp as int], col, uq)
                    &&& unique_shown(win0, sheet0, col, uq, win1, sheet1)
                }
        }
    })
}

impl WinInfo {
    /// Keeps one row per distinct non-empty value of the focused column (the
    /// others are hidden as padding), says how many there are, and draws that
    /// column and those after it again.
    pub fn show_unique_column_values(&mut self, cells: &mut Cells)
        requires
            old(self).wf(),
            old(cells).wf(),
            !(old(self).request is Abort),
        ensures
            final(self).wf(),
            final(cells).wf(),
            show_unique_column_values_outcome(*old(self), *old(cells), *final(self), *final(cells)),
    {
        let wp = self.w_pointer;
        if wp >= cells.columns.len() || wp >= cells.header.len() {
            self.abort("index out of bounds");
            return;
        }
        let uq = cells.get_column(wp).make_unique();
        let ghost col = cells.columns@[wp as int];
        let ghost c1 = *cells;
        proof {
            assert forall|k: int| 0 <= k < c1.columns@.len() implies (#[trigger] c1.columns@[k]).wf() by {
                if k != wp {
                    assert(c1.columns@[k] == old(cells).columns@[k]);
                }
            }
        }
        let mut t = String::new();
        crate::text::push_text(&mut t, "\x1b[?25l");
        crate::text::push_dec(&mut t, uq);
        crate::text::push_text(&mut t, " unique ");
        let cut = 6 - crate::cells::sat_sub_exec(2, uq);
        proof {
            reveal_strlit("values");
        }
        let vals = crate::text::to_chars("values");
        crate::text::push_range(&mut t, &vals, 0, cut);
        crate::text::push_text(&mut t, " in '");
        crate::text::push_text(&mut t, cells.header[wp].content.as_str());
        crate::text::push_text(&mut t, "'");
        assert(t@ =~= unique_report(uq, old(cells).header@[wp as int].content@));
        self.push_bottom(t.as_str());
        let ghost s1 = *self;
        let (wc, wr) = cells.w_cell;
        if !cells.has_cell_exec(wc, wr) || !cells.has_cell_exec(wp, self.h_pointer) {
            self.abort("index out of bounds");
            assert(column_set(*old(cells), c1, wp as int, col));
            assert(crate::commands::bottom_set(*old(self), unique_report(uq, old(cells).header@[wp as int].content@), s1));
            assert(unique_shown(*old(self), *old(cells), col, uq, *self, *cells));
            return;
        }
        cells.set_w_cell(wp, self.h_pointer);
        let ghost c2 = *cells;
        self.draw_from_column(cells);
        let ghost s2 = *self;
        let ghost c3 = *cells;
        self.flush_live();
        cells.written = true;
        proof {
            assert(column_set(*old(cells), c1, wp as int, col));
            assert(crate::commands::bottom_set(*old(self), unique_report(uq, old(cells).header@[wp as int].content@), s1));
            assert(crate::row_ops::w_cell_moved(c1, c2, wp, old(self).h_pointer));
            assert(crate::render::from_column_drawn(s1, c2, s2, c3));
            assert(unique_shown(*old(self), *old(cells), col, uq, *self, *cells));
        }
    }
}

/// What `show_unique_column_values` shows once the focused column of `c0`
/// became `col` with `uq` distinct values: the report on the bottom line,
/// the focus moved back to the pointers, that column and those after it
/// drawn again, then a flush.
pub open spec fn unique_shown(s0: WinInfo, c0: Cells, col: Column, uq: usize, s3: WinInfo, c3: Cells) -> bool {
    let wp = s0.w_pointer;
    let t = unique_report(uq, c0.header@[wp as int].content@);
    exists|c1: Cells, s1: WinInfo|
        {
            &&& #[trigger] column_set(c0, c1, wp as int, col)
            &&& #[trigger] crate::commands::bottom_set(s0, t, s1)
            &&& if !c1.has_cell(c1.w_cell.0, c1.w_cell.1) || !c1.has_cell(wp, s0.h_pointer) {
                s3.request is Abort
            } else {
                exists|c2: Cells, s2: WinInfo, c4: Cells|
                    {
                        &&& #[trigger] crate::row_ops::w_cell_moved(c1, c2, wp, s0.h_pointer)
                        &&& #[trigger] crate::render::from_column_drawn(s1, c2, s2, c4)
                        &&& crate::commands::flushed_or_stopped(s2, s3)
                        &&& c3 == (Cells { written: true, ..c4 })
                    }
            }
        }
}


impl Column {
    /// Adds as many empty cells as it shows rows beyond `uq`, hides them and
    /// as many of its rows as padding, and takes the row order `order`.
    pub fn sift_to(&mut self, uq: usize, order: &Vec<usize>)
        requires
            old(self).wf(),
            old(self).shown() >= uq,
            old(self).cells@.len() + (old(self).shown() - uq) == order@.len(),
            crate::cells::is_perm(order@, order@.len()),
        ensures
            final(self).wf(),
            final(self).padding == old(self).shown() - uq,
            crate::cells::cells_model(final(self).cells@) == crate::cells::cells_model(old(self).cells@) + blanks(
                (old(self).shown() - uq) as nat,
            ),
            final(self).indices@ == order@,
            final(self).start == old(self).start,
            final(self).width == old(self).width,
    {
        let pad = self.len() - uq;
        let mut j: usize = 0;
        while j < pad
            invariant
                j <= pad,
                pad == old(self).shown() - uq,
                old(self).cells@.len() + pad == order@.len(),
                self.wf(),
                crate::cells::cells_model(self.cells@) == crate::cells::cells_model(old(self).cells@) + blanks(
                    j as nat,
                ),
                self.cells@.len() == old(self).cells@.len() + j,
                self.padding == old(self).padding,
                self.start == old(self).start,
                self.width == old(self).width,
            decreases pad - j,
        {
            let c = Cell::new("");
            proof {
                reveal_strlit("");
            }
            let ghost prev = self.cells@;
            self.push_cell(c);
            proof {
                assert(crate::cells::cells_model(self.cells@) =~= crate::cells::cells_model(prev).push(
                    crate::cells::new_cell_model(Seq::empty()),
                ));
                assert(blanks((j + 1) as nat) =~= blanks(j as nat).push(crate::cells::new_cell_model(Seq::empty())));
            }
            j += 1;
        }
        self.padding = pad;
        self.indices = order.clone();
    }
}

/// The sheet `f` is `o` once column `k` became `col` with `uq` distinct
/// values and every other column took its row order, with as many empty
/// cells added and hidden as padding as it showed rows beyond `uq`.
pub open spec fn sheet_sifted(o: Cells, f: Cells, k: int, col: Column, uq: usize) -> bool {
    &&& f.wf()
    &&& f.columns@.len() == o.columns@.len()
    &&& f.columns@[k] == col
    &&& forall|j: int|
        0 <= j < o.columns@.len() && j != k ==> {
            let c = #[trigger] o.columns@[j];
            let pad = (c.shown() - uq) as nat;
            &&& crate::cells::cells_model(f.columns@[j].cells@) == crate::cells::cells_model(c.cells@) + blanks(pad)
            &&& f.columns@[j].padding == pad
            &&& f.columns@[j].indices@ == col.indices@
            &&& f.columns@[j].start == c.start
            &&& f.columns@[j].width == c.width
        }
    &&& f == (Cells { columns: f.columns, written: true, ..o })
}

/// Whether every column other than `k` of `o` can take the row order of
/// `col` after a sift to `uq` rows.
pub open spec fn sift_fits(o: Cells, k: int, col: Column, uq: usize) -> bool {
    forall|j: int|
        0 <= j < o.columns@.len() && j != k ==> {
            let c = #[trigger] o.columns@[j];
            &&& c.shown() >= uq
            &&& c.cells@.len() + (c.shown() - uq) == col.indices@.len()
        }
}

/// The bottom-line report of a sift from `a` to `b` rows.
pub open spec fn sift_report(a: usize, b: usize) -> Seq<char> {
    "Sifted from "@ + crate::text::dec_text(a as nat) + " to "@ + crate::text::dec_text(b as nat) + " rows"@
}

/// What `sift_by` does once column `k` of the unfocused sheet `c1` became
/// `col` with `uq` distinct values.
pub open spec fn sift_finished(s0: WinInfo, c1: Cells, k: int, col: Column, uq: usize, s3: WinInfo, c3: Cells) -> bool {
    if !sift_fits(c1, k, col, uq) || uq == 0 || !crate::terminal::small(uq) {
        s3.request is Abort
    } else {
        let s1 = WinInfo { num_rows: uq, ..s0 };
        exists|c2: Cells|
            {
                &&& #[trigger] sheet_sifted(c1, c2, k, col, uq)
                &&& match crate::terminal::moved_h_pointer(s1, s0.h_pointer) {
                    None => s3.request is Abort,
                    Some(s2) => if !c2.has_cell(c2.w_cell.0, c2.w_cell.1) || !c2.has_cell(s2.w_pointer, s2.h_pointer) {
                        s3.request is Abort
                    } else {
                        exists|c4: Cells, s4: WinInfo|
                            {
                                &&& #[trigger] crate::row_ops::w_cell_moved(c2, c4, s2.w_pointer, s2.h_pointer)
                                &&& #[trigger] crate::render::screen_drawn(s2, c4, s4, c3)
                                &&& if s4.request is Abort {
                                    s3 == s4
                                } else {
                                    exists|m: WinInfo|
                                        #[trigger] crate::commands::bottom_set(s4, sift_report(s0.num_rows, uq), m)
                                            && crate::terminal::flushed(m, s3)
                                }
                            }
                    },
                }
            }
    }
}

/// What `sift_by` does to the window `win0` and the sheet `sheet0`,
/// giving `win1` and `sheet1`.
pub open spec fn sift_by_outcome(win0: WinInfo, sheet0: Cells, col_name: &str, win1: WinInfo, sheet1: Cells) -> bool {
    &&& match crate::commands::lookup_outcome(sheet0, col_name@) {
        None => win1.request is Abort,
        Some(None) => sheet1 == sheet0 && crate::commands::reported(
            win0,
            crate::commands::lookup_error(col_name),
            win1,
        ),
        Some(Some(k)) => if !sheet0.has_cell(sheet0.w_cell.0, sheet0.w_cell.1) || k
            >= sheet0.columns@.len() {
            win1.request is Abort
        } else {
            exists|c1: Cells, col: Column, uq: usize|
                {
                    &&& #[trigger] crate::commands::focus_cleared(sheet0, c1)
                    &&& #[trigger] crate::cells::unique_post(c1.columns@[k], col, uq)
                    &&& sift_finished(win0, c1, k, col, uq, win1, sheet1)
                }
        },
    }
}

impl WinInfo {
    /// Keeps one row per distinct non-empty value of the column named
    /// `col_name`, every other column following its row order, and draws the
    /// sheet again with the old and new row counts.
    #[verifier::rlimit(60)]
    #[verifier::loop_isolation(false)]
    pub fn sift_by(&mut self, cells: &mut Cells, col_name: &str)
        requires
            old(self).wf(),
            old(cells).wf(),
            !(old(self).request is Abort),
        ensures
            final(self).wf(),
            final(cells).wf(),
            sift_by_outcome(*old(self), *old(cells), col_name, *final(self), *final(cells)),
    {
        let k = match self.lookup_column(cells, col_name) {
            None => {
                return;
            },
            Some(k) => k,
        };
        let ghost c0 = *cells;
        self.unfocus(cells);
        if self.is_aborted() {
            return;
        }
        if k >= cells.columns.len() {
            self.abort("index out of bounds");
            return;
        }
        let ghost c1 = *cells;
        let orig = self.num_rows;
        let uq = cells.get_column(k).make_unique();
        let ghost col = cells.columns@[k as int];
        let ghost cm = *cells;
        proof {
            assert(crate::commands::focus_cleared(c0, c1));
            assert(crate::cells::unique_post(c1.columns@[k as int], col, uq));
        }
        let nc = cells.columns.len();
        let order = cells.columns[k].indices.clone();
        let ghost sa = *self;
        assert(sa == *old(self));
        let mut j: usize = 0;
        while j < nc
            invariant
                j <= nc,
                nc == cells.columns@.len(),
                *cells == cm,
                *self == sa,
                order@ == col.indices@,
                forall|i: int|
                    0 <= i < j && i != k ==> {
                        let c = #[trigger] c1.columns@[i];
                        &&& c.shown() >= uq
                        &&& c.cells@.len() + (c.shown() - uq) == col.indices@.len()
                    },
            decreases nc - j,
        {
            if j != k {
                let len = cells.columns[j].cells.len();
                let shown = cells.columns[j].len();
                proof {
                    assert(cells.columns@[j as int] == c1.columns@[j as int]);
                    assert(c1.columns@[j as int].wf());
                }
                if shown < uq || len > usize::MAX - (shown - uq) || len + (shown - uq) != order.len() {
                    assert(!sift_fits(c1, k as int, col, uq));
                    self.abort("index out of bounds");
                    return;
                }
            }
            j += 1;
        }
        if uq == 0 || uq > usize::MAX / 16 {
            self.abort("attempt to subtract with overflow");
            return;
        }
        let mut j: usize = 0;
        while j < nc
            invariant
                j <= nc,
                nc == cells.columns@.len(),
                order@ == col.indices@,
                col.wf(),
                cells.columns@[k as int] == col,
                sift_fits(c1, k as int, col, uq),
                forall|i: int| 0 <= i < nc ==> (#[trigger] cells.columns@[i]).wf(),
                forall|i: int|
                    0 <= i < j && i != k ==> {
                        let c = #[trigger] c1.columns@[i];
                        let pad = (c.shown() - uq) as nat;
                        &&& crate::cells::cells_model(cells.columns@[i].cells@) == crate::cells::cells_model(c.cells@)
                            + blanks(pad)
                        &&& cells.columns@[i].padding == pad
                        &&& cells.columns@[i].indices@ == col.indices@
                        &&& cells.columns@[i].start == c.start
                        &&& cells.columns@[i].width == c.width
                    },
                forall|i: int| j <= i < nc && i != k ==> #[trigger] cells.columns@[i] == c1.columns@[i],
                *cells == (Cells { columns: cells.columns, ..c1 }),
            decreases nc - j,
        {
            if j != k {
                proof {
                    assert(c1.columns@[j as int].wf());
                }
                let ghost before = *cells;
                cells.get_column(j).sift_to(uq, &order);
                proof {
                    assert forall|i: int| 0 <= i < nc implies (#[trigger] cells.columns@[i]).wf() by {
                        if i != j {
                            assert(cells.columns@[i] == before.columns@[i]);
                        }
                    }
                }
            }
            j += 1;
        }
        cells.written = true;
        let ghost c2 = *cells;
        assert(sheet_sifted(c1, c2, k as int, col, uq));
        self.num_rows = uq;
        let ghost s1 = *self;
        assert(s1 == WinInfo { num_rows: uq, ..*old(self) });
        self.set_h_pointer(self.h_pointer);
        if self.is_aborted() {
            assert(sheet_sifted(c1, c2, k as int, col, uq));
            return;
        }
        let ghost s2 = *self;
        let (wc, wr) = cells.w_cell;
        if !cells.has_cell_exec(wc, wr) || !cells.has_cell_exec(self.w_pointer, self.h_pointer) {
            self.abort("index out of bounds");
            assert(sheet_sifted(c1, c2, k as int, col, uq));
            return;
        }
        cells.set_w_cell(self.w_pointer, self.h_pointer);
        let ghost c4 = *cells;
        self.draw_screen(cells);
        let ghost s4 = *self;
        if self.is_aborted() {
            assert(crate::row_ops::w_cell_moved(c2, c4, s2.w_pointer, s2.h_pointer));
            assert(crate::render::screen_drawn(s2, c4, s4, *cells));
            return;
        }
        let mut t = String::new();
        crate::text::push_text(&mut t, "Sifted from ");
        crate::text::push_dec(&mut t, orig);
        crate::text::push_text(&mut t, " to ");
        crate::text::push_dec(&mut t, uq);
        crate::text::push_text(&mut t, " rows");
        assert(t@ =~= sift_report(orig, uq));
        self.push_bottom(t.as_str());
        let ghost m = *self;
        self.flush();
        assert(crate::commands::bottom_set(s4, sift_report(orig, uq), m));
        assert(crate::row_ops::w_cell_moved(c2, c4, s2.w_pointer, s2.h_pointer));
        assert(crate::render::screen_drawn(s2, c4, s4, *cells));
    }
}


/// What reading a column reference or range gives.
pub enum ColRead {
    /// The first and last columns.
    Cols(nat, nat),
    /// No column is named by this reference.
    NotFound(Seq<char>),
    /// This token is no number; reading it gave this.
    BadNum(crate::parse::DecOut, Seq<char>),
    /// The range runs to this column, past the last one.
    TooFar(nat),
    Panic,
}

/// The column a reference names, read as a `ColRead`.
pub open spec fn col_ref_read(c: Cells, t: Seq<char>) -> ColRead {
    match crate::commands::lookup_outcome(c, t) {
        None => ColRead::Panic,
        Some(None) => ColRead::NotFound(t),
        Some(Some(k)) => ColRead::Cols(k as nat, k as nat),
    }
}

/// The second part of a column range after `-` (or `+` when empty): the
/// last column when empty, else the column it names.
pub open spec fn col_upto(c: Cells, a: nat, t: Seq<char>) -> ColRead {
    if t.len() == 0 {
        if c.columns@.len() == 0 {
            ColRead::Panic
        } else {
            ColRead::Cols(a, (c.columns@.len() - 1) as nat)
        }
    } else {
        match col_ref_read(c, t) {
            ColRead::Cols(b, _) => ColRead::Cols(a, b),
            r => r,
        }
    }
}

/// A column range as written in a command: one column; two joined by `-`;
/// a column, `+` and how many more. An empty first part is the first column,
/// `_` the focused one `wp`; an empty second part is the last column.
pub open spec fn col_range(c: Cells, r: Seq<char>, wp: usize) -> ColRead {
    match crate::row_ops::range_tokens(r) {
        None => ColRead::Panic,
        Some((toks, d)) => {
            let t0 = toks[0];
            let first = if t0.len() == 0 {
                ColRead::Cols(0, 0)
            } else if t0 == "_"@ {
                ColRead::Cols(wp as nat, wp as nat)
            } else {
                col_ref_read(c, t0)
            };
            match first {
                ColRead::Cols(a, _) => if toks.len() < 2 {
                    ColRead::Cols(a, a)
                } else {
                    match d {
                        Some(ch) => if ch == '-' {
                            col_upto(c, a, toks[1])
                        } else if ch == '+' {
                            if toks[1].len() == 0 {
                                col_upto(c, a, toks[1])
                            } else {
                                match crate::parse::dec_read(toks[1]) {
                                    crate::parse::DecOut::Val(v) => if a + v > usize::MAX {
                                        ColRead::Panic
                                    } else if a + v > c.columns@.len() {
                                        ColRead::TooFar(a + v)
                                    } else {
                                        ColRead::Cols(a, a + v)
                                    },
                                    crate::parse::DecOut::Panic => ColRead::Panic,
                                    e => ColRead::BadNum(e, toks[1]),
                                }
                            }
                        } else {
                            ColRead::Cols(a, a)
                        },
                        None => ColRead::Cols(a, a),
                    }
                },
                r => r,
            }
        },
    }
}

/// Whether `e` is the error shown when no column is named by `t`.
pub open spec fn not_found_error(e: CmdErr, t: Seq<char>) -> bool {
    if crate::cells::is_quote(t[0]) {
        e is NoName && e->NoName_0@ == t
    } else {
        e is NoId && e->NoId_0@ == t
    }
}

/// Whether the window `s1` reports a failed read `r` of `s0` (or stopped).
pub open spec fn col_read_failed(r: ColRead, s0: WinInfo, s1: WinInfo) -> bool {
    match r {
        ColRead::Cols(_, _) => false,
        ColRead::Panic => s1.request is Abort,
        ColRead::NotFound(t) => exists|e: CmdErr| #[trigger] crate::commands::reported(s0, e, s1) && not_found_error(e, t),
        ColRead::BadNum(d, t) => exists|e: CmdErr|
            #[trigger] crate::commands::reported(s0, e, s1) && crate::row_ops::read_error(e, d, t),
        ColRead::TooFar(i) => crate::commands::reported(s0, CmdErr::InvalidIndex(i as usize), s1),
    }
}

/// The sheet parts a column move works on: columns, names and ids.
pub struct ColParts {
    pub cols: Seq<Column>,
    pub names: Seq<Cell>,
    pub ids: Seq<Cell>,
}

/// One step of a column move: column `a` (and its name) is taken out and
/// put back in at `x`; the ids at `a` and `x` then take the widths of the
/// columns now there.
pub open spec fn col_move_step(p: ColParts, a: int, x: int) -> ColParts {
    let c = p.cols[a];
    let cols = p.cols.remove(a).insert(x, c);
    let names = p.names.remove(a).insert(x, p.names[a]);
    let ids1 = p.ids.update(a, Cell { width: cols[a].width, ..p.ids[a] });
    let ids = ids1.update(x, Cell { width: c.width, ..ids1[x] });
    ColParts { cols, names, ids }
}

/// The first `n` steps of moving the columns `ida..=ida + diff` to `idx`:
/// step `i` moves column `ida + i` to `idx + i` when the block goes left,
/// column `ida` to `idx + diff` when it goes right.
pub open spec fn col_moves(p: ColParts, ida: int, idx: int, diff: int, n: nat) -> ColParts
    decreases n,
{
    if n == 0 {
        p
    } else {
        let i = n - 1;
        let behind = ida > idx;
        let ahead = idx > ida;
        let a = ida + (if behind {
            i
        } else {
            0
        });
        let x = idx + (if ahead {
            diff
        } else {
            0
        }) + (if behind {
            i
        } else {
            0
        });
        col_move_step(col_moves(p, ida, idx, diff, (n - 1) as nat), a, x)
    }
}

/// Whether every step of that move stays inside the columns, names and ids.
pub open spec fn col_moves_fit(c: Cells, ida: int, idx: int, diff: int) -> bool {
    let n = c.columns@.len();
    let top_a = ida + (if ida > idx {
        diff
    } else {
        0
    });
    let top_x = idx + (if idx != ida {
        diff
    } else {
        0
    });
    &&& c.header@.len() == n
    &&& c.col_ids@.len() >= n
    &&& top_a < n
    &&& top_x < n
}

/// The parts of a sheet.
pub open spec fn parts_of(c: Cells) -> ColParts {
    ColParts { cols: c.columns@, names: c.header@, ids: c.col_ids@ }
}

/// What `move_columns` does to the window `win0` and the sheet `sheet0`,
/// giving `win1` and `sheet1`.
pub open spec fn move_columns_outcome(win0: WinInfo, sheet0: Cells, range: &str, loc: &str, win1: WinInfo, sheet1: Cells) -> bool {
    &&& match col_range(sheet0, range@, win0.w_pointer) {
        ColRead::Cols(ida, idb) => match col_ref_read(sheet0, loc@) {
            ColRead::Cols(idx, _) => move_columns_done(win0, sheet0, ida, idb, idx, win1, sheet1),
            r => sheet1 == sheet0 && col_read_failed(r, win0, win1),
        },
        r => sheet1 == sheet0 && col_read_failed(r, win0, win1),
    }
}

impl WinInfo {
    /// Moves the columns of `range` (see `col_range`) to the column `loc`,
    /// focuses that column and shows the sheet again; else shows why not.
    #[verifier::rlimit(80)]
    #[verifier::loop_isolation(false)]
    pub fn move_columns(&mut self, cells: &mut Cells, range: &str, loc: &str)
        requires
            old(self).wf(),
            old(cells).wf(),
            !(old(self).request is Abort),
        ensures
            final(self).wf(),
            final(cells).wf(),
            move_columns_outcome(*old(self), *old(cells), range, loc, *final(self), *final(cells)),
    {
        let (toks, delim) = match crate::parse::tokenize_range(range) {
            Some(x) => x,
            None => {
                self.abort("byte index is not a char boundary");
                return;
            },
        };
        proof {
            match crate::parse::range_delim(range@) {
                Some((_, ch)) => {
                    assert(toks@.len() >= 1);
                },
                None => {},
            }
            let rt = crate::row_ops::range_tokens(range@)->0;
            assert(rt.0.len() == toks@.len());
            assert forall|k: int| 0 <= k < toks@.len() implies rt.0[k] == (#[trigger] toks@[k])@ by {}
            assert(rt.1 == delim);
        }
        let t0 = toks[0];
        proof {
            reveal_strlit("_");
        }
        let ida = if t0.unicode_len() == 0 {
            0
        } else if crate::text::same_text(t0, "_") {
            self.w_pointer
        } else {
            match self.lookup_column(cells, t0) {
                Some(k) => k,
                None => {
                    return;
                },
            }
        };
        let n = cells.columns.len();
        let idb = if toks.len() < 2 {
            ida
        } else {
            match delim {
                Some(ch) => {
                    let t1 = toks[1];
                    if ch == '-' || (ch == '+' && t1.unicode_len() == 0) {
                        if t1.unicode_len() == 0 {
                            if n == 0 {
                                self.abort("attempt to subtract with overflow");
                                return;
                            }
                            n - 1
                        } else {
                            match self.lookup_column(cells, t1) {
                                Some(k) => k,
                                None => {
                                    return;
                                },
                            }
                        }
                    } else if ch == '+' {
                        let v = match crate::parse::str_to_dec(t1) {
                            None => {
                                self.abort("called `Option::unwrap()` on a `None` value");
                                return;
                            },
                            Some(Err(e)) => {
                                self.report(&e);
                                return;
                            },
                            Some(Ok(v)) => v,
                        };
                        if ida > usize::MAX - v {
                            self.abort("attempt to add with overflow");
                            return;
                        }
                        if ida + v > n {
                            self.report(&CmdErr::InvalidIndex(ida + v));
                            return;
                        }
                        ida + v
                    } else {
                        ida
                    }
                },
                None => ida,
            }
        };
        assert(col_range(*old(cells), range@, old(self).w_pointer) == ColRead::Cols(ida as nat, idb as nat));
        let idx = match self.lookup_column(cells, loc) {
            Some(k) => k,
            None => {
                return;
            },
        };
        self.finish_column_move(cells, ida, idb, idx);
    }

    /// The part of `move_columns` after the range and the target were read.
    #[verifier::rlimit(80)]
    #[verifier::loop_isolation(false)]
    fn finish_column_move(&mut self, cells: &mut Cells, ida: usize, idb: usize, idx: usize)
        requires
            old(self).wf(),
            old(cells).wf(),
            !(old(self).request is Abort),
        ensures
            final(self).wf(),
            final(cells).wf(),
            move_columns_done(*old(self), *old(cells), ida as nat, idb as nat, idx as nat, *final(self), *final(cells)),
    {
        let ghost c0 = *cells;
        self.unfocus(cells);
        if self.is_aborted() {
            return;
        }
        let ghost c1 = *cells;
        assert(crate::commands::focus_cleared(c0, c1));
        if idb < ida {
            self.abort("attempt to subtract with overflow");
            return;
        }
        let diff = idb - ida;
        let n = cells.columns.len();
        let top_a = if ida > idx {
            if ida > usize::MAX - diff {
                self.abort("attempt to add with overflow");
                return;
            }
            ida + diff
        } else {
            ida
        };
        let top_x = if idx != ida {
            if idx > usize::MAX - diff {
                self.abort("attempt to add with overflow");
                return;
            }
            idx + diff
        } else {
            idx
        };
        if cells.header.len() != n || cells.col_ids.len() < n || top_a >= n || top_x >= n {
            self.abort("index out of bounds");
            return;
        }
        assert(col_moves_fit(c1, ida as int, idx as int, diff as int));
        let mut i: usize = 0;
        while i < diff
            invariant
                i <= diff,
                diff == idb - ida,
                col_moves_fit(c1, ida as int, idx as int, diff as int),
                cells.columns@.len() == n,
                cells.header@.len() == n,
                cells.col_ids@.len() == c1.col_ids@.len(),
                parts_of(*cells) == col_moves(parts_of(c1), ida as int, idx as int, diff as int, i as nat),
                *cells == (Cells { columns: cells.columns, header: cells.header, col_ids: cells.col_ids, ..c1 }),
                cells.wf(),
            decreases diff - i,
        {
            cells.col_move_once(ida, idx, diff, i);
            i += 1;
        }
        cells.col_move_once(ida, idx, diff, diff);
        cells.written = true;
        let ghost c2 = *cells;
        assert(parts_of(c2) == col_moves(parts_of(c1), ida as int, idx as int, diff as int, (diff + 1) as nat));
        self.set_w_pointer(idx);
        if self.is_aborted() {
            return;
        }
        self.changed = crate::terminal::WinChange::Columns;
        let ghost s1 = *self;
        self.show_csv(cells);
    }
}

impl Cells {
    /// Step `i` of moving the columns `ida..=ida + diff` to `idx` (see
    /// `col_moves`).
    #[verifier::rlimit(40)]
    fn col_move_once(&mut self, ida: usize, idx: usize, diff: usize, i: usize)
        requires
            old(self).wf(),
            i <= diff,
            old(self).header@.len() == old(self).columns@.len(),
            old(self).col_ids@.len() >= old(self).columns@.len(),
            ida < old(self).columns@.len(),
            idx < old(self).columns@.len(),
            ida > idx ==> ida + diff < old(self).columns@.len(),
            idx != ida ==> idx + diff < old(self).columns@.len(),
        ensures
            final(self).wf(),
            final(self).columns@.len() == old(self).columns@.len(),
            final(self).header@.len() == old(self).header@.len(),
            final(self).col_ids@.len() == old(self).col_ids@.len(),
            parts_of(*final(self)) == col_move_step(
                parts_of(*old(self)),
                ida + (if ida > idx {
                    i as int
                } else {
                    0
                }),
                idx + (if idx > ida {
                    diff as int
                } else {
                    0
                }) + (if ida > idx {
                    i as int
                } else {
                    0
                }),
            ),
            *final(self) == (Cells { columns: final(self).columns, header: final(self).header, col_ids: final(self).col_ids, ..*old(self) }),
    {
        let n = self.columns.len();
        let a = if ida > idx {
            ida + i
        } else {
            ida
        };
        let x = if ida > idx {
            idx + i
        } else if idx > ida {
            idx + diff
        } else {
            idx
        };
        let ghost p = parts_of(*self);
        let col = self.columns.remove(a);
        let name = self.header.remove(a);
        let w = col.width;
        self.columns.insert(x, col);
        self.header.insert(x, name);
        let wa = self.columns[a].width;
        let ca = self.col_id_mut(a);
        ca.width = wa;
        let cx = self.col_id_mut(x);
        cx.width = w;
        proof {
            let q = col_move_step(p, a as int, x as int);
            assert(self.columns@ =~= q.cols);
            assert(self.header@ =~= q.names);
            assert(self.col_ids@ =~= q.ids);
            assert forall|k: int| 0 <= k < n implies (#[trigger] self.columns@[k]).wf() by {
                if k < x && k < a || k > x && k > a {
                    assert(self.columns@[k] == p.cols[k]);
                } else if k == x {
                    assert(self.columns@[k] == p.cols[a as int]);
                } else if a < x {
                    assert(self.columns@[k] == p.cols[k + 1]);
                } else {
                    assert(self.columns@[k] == p.cols[k - 1]);
                }
            }
        }
    }
}

/// What `move_columns` does once the columns `ida..=idb` and the target
/// `idx` were read: clear the focus, move the block (see `col_moves`), focus
/// the target column and show the sheet again.
pub open spec fn move_columns_done(s0: WinInfo, c0: Cells, ida: nat, idb: nat, idx: nat, s3: WinInfo, c3: Cells) -> bool {
    if !c0.has_cell(c0.w_cell.0, c0.w_cell.1) || idb < ida {
        s3.request is Abort
    } else {
        let diff = idb - ida;
        if (ida > idx && ida + diff > usize::MAX) || (idx != ida && idx + diff > usize::MAX) {
            s3.request is Abort
        } else {
            exists|c1: Cells|
                {
                    &&& #[trigger] crate::commands::focus_cleared(c0, c1)
                    &&& if !col_moves_fit(c1, ida as int, idx as int, diff) {
                        s3.request is Abort
                    } else {
                        exists|c2: Cells|
                            {
                                &&& #[trigger] parts_of(c2) == col_moves(parts_of(c1), ida as int, idx as int, diff, (diff + 1) as nat)
                                &&& c2 == (Cells { columns: c2.columns, header: c2.header, col_ids: c2.col_ids, written: true, ..c1 })
                                &&& match crate::terminal::moved_w_pointer(s0, idx as usize) {
                                    None => s3.request is Abort,
                                    Some(s1) => crate::render::csv_shown(
                                        WinInfo { changed: crate::terminal::WinChange::Columns, ..s1 },
                                        c2,
                                        s3,
                                        c3,
                                    ),
                                }
                            }
                    }
                }
        }
    }
}


/// How many of the first `j` targets `ids` lie before column `p`.
pub open spec fn dec_before(ids: Seq<usize>, p: int, j: int) -> int
    decreases j,
{
    if j <= 0 {
        0
    } else {
        dec_before(ids, p, j - 1) + (if (ids[j - 1] as int) < p {
            1int
        } else {
            0int
        })
    }
}

/// Where step `j` of a grouping behind column `p` takes a column from.
pub open spec fn group_from(ids: Seq<usize>, p: int, j: int) -> int {
    if (ids[j] as int) < p {
        ids[j] - dec_before(ids, p, j)
    } else {
        ids[j] as int
    }
}

/// Where step `j` of a grouping behind column `p` puts that column.
pub open spec fn group_to(ids: Seq<usize>, p: int, j: int) -> int {
    p - dec_before(ids, p, j + 1) + j + 1
}

/// One step of a grouping: column `a` (with its name) is taken out, the
/// focus flag of its row `h` cleared, and it is put back in at `x`; the ids
/// at `x` and then `a` take the widths of the columns now there.
pub open spec fn group_step(p: ColParts, q: ColParts, a: int, x: int, h: int) -> bool {
    let c = p.cols[a];
    let moved = q.cols[x];
    let ids1 = p.ids.update(x, Cell { width: c.width, ..p.ids[x] });
    &&& 0 <= a < p.cols.len()
    &&& 0 <= x < p.cols.len()
    &&& 0 <= h < c.indices@.len()
    &&& q.cols == p.cols.remove(a).insert(x, moved)
    &&& moved.cells@ == c.cells@.update(c.indices@[h] as int, Cell { is_focused: false, ..c.cells@[c.indices@[h] as int] })
    &&& moved.indices@ == c.indices@
    &&& moved.start == c.start
    &&& moved.width == c.width
    &&& moved.padding == c.padding
    &&& q.names == p.names.remove(a).insert(x, p.names[a])
    &&& q.ids == ids1.update(a, Cell { width: q.cols[a].width, ..ids1[a] })
}

/// Whether the first `j` steps of `t` are steps of the grouping of the
/// columns `ids` behind column `p`, clearing row `h` of each.
#[verifier::opaque]
pub open spec fn group_steps(t: Seq<ColParts>, ids: Seq<usize>, p: int, h: int, j: int) -> bool {
    forall|q: int| 0 <= q < j ==> group_step(#[trigger] t[q], t[q + 1], group_from(ids, p, q), group_to(ids, p, q), h)
}

proof fn lemma_group_steps_push(t: Seq<ColParts>, ids: Seq<usize>, p: int, h: int, j: int, q: ColParts)
    requires
        0 <= j,
        t.len() == j + 1,
        group_steps(t, ids, p, h, j),
        group_step(t[j], q, group_from(ids, p, j), group_to(ids, p, j), h),
    ensures
        group_steps(t.push(q), ids, p, h, j + 1),
{
    reveal(group_steps);
    assert forall|k: int| 0 <= k < j + 1 implies group_step(#[trigger] t.push(q)[k], t.push(q)[k + 1], group_from(ids, p, k), group_to(ids, p, k), h) by {
        if k < j {
            assert(t.push(q)[k] == t[k]);
            assert(t.push(q)[k + 1] == t[k + 1]);
        }
    }
}

/// Whether `t` traces the grouping of the columns `ids` behind column `p`,
/// clearing row `h` of each.
pub open spec fn group_trace(t: Seq<ColParts>, ids: Seq<usize>, p: int, h: int) -> bool {
    &&& t.len() == ids.len() + 1
    &&& group_steps(t, ids, p, h, ids.len() as int)
}

/// The column ids (or names) that the tokens `toks` name, up to the first
/// that names none: `Ok` with all of them, or `Err` with the index of that
/// token (`None` where a token is no reference at all).
pub open spec fn group_targets(c: Cells, toks: Seq<Seq<char>>) -> Result<Seq<usize>, Option<int>>
    decreases toks.len(),
{
    if toks.len() == 0 {
        Ok(Seq::empty())
    } else {
        match group_targets(c, toks.drop_last()) {
            Err(e) => Err(e),
            Ok(v) => match crate::commands::lookup_outcome(c, toks.last()) {
                None => Err(None),
                Some(None) => Err(Some(toks.len() - 1)),
                Some(Some(k)) => Ok(v.push(k as usize)),
            },
        }
    }
}

/// What `group_columns` does to the window `win0` and the sheet `sheet0`,
/// giving `win1` and `sheet1`.
pub open spec fn group_columns_outcome(win0: WinInfo, sheet0: Cells, list: &str, win1: WinInfo, sheet1: Cells) -> bool {
    &&& !crate::parse::tokens_ok(list@, ',') ==> win1.request is Abort
    &&& crate::parse::tokens_ok(list@, ',') ==> ({
        let toks = Seq::new(
            crate::parse::token_ranges(list@, ',').len(),
            |k: int| crate::parse::token_text(list@, ',', k),
        );
        match col_ref_read(sheet0, toks[0]) {
            ColRead::Cols(p, _) => match group_targets(sheet0, toks.skip(1)) {
                Err(None) => win1.request is Abort,
                Err(Some(j)) => sheet1 == sheet0 && col_read_failed(
                    ColRead::NotFound(toks[j + 1]),
                    win0,
                    win1,
                ),
                Ok(ids) => grouped(win0, sheet0, ids, p as int, win1, sheet1),
            },
            r => sheet1 == sheet0 && col_read_failed(r, win0, win1),
        }
    })
}

impl WinInfo {
    /// Moves the columns named after the first one in the comma-separated
    /// `list` right behind it, in list order, and draws again.
    #[verifier::rlimit(80)]
    #[verifier::loop_isolation(false)]
    pub fn group_columns(&mut self, cells: &mut Cells, list: &str)
        requires
            old(self).wf(),
            old(cells).wf(),
            !(old(self).request is Abort),
        ensures
            final(self).wf(),
            final(cells).wf(),
            group_columns_outcome(*old(self), *old(cells), list, *final(self), *final(cells)),
    {
        let toks = match crate::parse::tokenize(list, ',') {
            Some(t) => t,
            None => {
                self.abort("byte index is not a char boundary");
                return;
            },
        };
        let ghost tv = Seq::new(
            crate::parse::token_ranges(list@, ',').len(),
            |k: int| crate::parse::token_text(list@, ',', k),
        );
        proof {
            assert(toks@.len() >= 1);
            assert forall|k: int| 0 <= k < toks@.len() implies tv[k] == (#[trigger] toks@[k])@ by {}
        }
        let p = match self.lookup_column(cells, toks[0]) {
            Some(k) => k,
            None => {
                return;
            },
        };
        let mut ids: Vec<usize> = Vec::new();
        let mut j: usize = 1;
        while j < toks.len()
            invariant
                1 <= j <= toks@.len(),
                *cells == *old(cells),
                *self == *old(self),
                group_targets(*old(cells), tv.skip(1).take(j - 1)) == Ok::<Seq<usize>, Option<int>>(ids@),
            decreases toks@.len() - j,
        {
            proof {
                assert(tv.skip(1).take(j as int).drop_last() =~= tv.skip(1).take(j - 1));
                assert(tv.skip(1).take(j as int).last() == toks@[j as int]@);
            }
            match self.lookup_column(cells, toks[j]) {
                Some(k) => ids.push(k),
                None => {
                    proof {
                        let pre = tv.skip(1).take(j as int);
                        assert(group_targets(*old(cells), tv.skip(1)) == group_targets(*old(cells), pre)) by {
                            lemma_group_targets_prefix(*old(cells), tv.skip(1), j as int);
                        }
                    }
                    return;
                },
            }
            j += 1;
        }
        proof {
            assert(tv.skip(1).take(j - 1) =~= tv.skip(1));
        }
        self.finish_group(cells, &ids, p);
    }

    #[verifier::rlimit(60)]
    fn finish_group(&mut self, cells: &mut Cells, ids: &Vec<usize>, p: usize)
        requires
            old(self).wf(),
            old(cells).wf(),
            !(old(self).request is Abort),
        ensures
            final(self).wf(),
            final(cells).wf(),
            grouped(*old(self), *old(cells), ids@, p as int, *final(self), *final(cells)),
    {
        let h = self.h_pointer;
        let n = cells.columns.len();
        if cells.header.len() != n || cells.col_ids.len() < n {
            self.abort("index out of bounds");
            return;
        }
        let dec = match cells.group_all(ids, p, h) {
            None => {
                self.abort("index out of bounds");
                return;
            },
            Some(d) => d,
        };
        let ghost c2 = *cells;
        if self.w_pointer != p {
            if p < dec {
                self.abort("attempt to subtract with overflow");
            } else {
                self.set_w_pointer(p - dec);
                if !self.is_aborted() {
                    self.draw_screen(cells);
                }
            }
        } else {
            self.draw_from_column(cells);
        }
        let ghost s2 = *self;
        let ghost c4 = *cells;
        assert(group_drawn(*old(self), c2, p as int, dec as int, s2, c4));
        if self.is_aborted() {
            cells.written = true;
            assert(group_shown(*old(self), c2, p as int, dec as int, *self, *cells));
            return;
        }
        self.draw_focused_content();
        let ghost m = *self;
        self.flush();
        cells.written = true;
        assert(crate::terminal::bottom_drawn(s2, m));
        assert(group_shown(*old(self), c2, p as int, dec as int, *self, *cells));
    }
}

impl Cells {
    /// Runs the steps of a grouping of the columns `ids` behind column `p`
    /// (clearing row `h` of each); `None` where a step cannot run, else how
    /// many of the columns came from before `p`.
    #[verifier::rlimit(80)]
    fn group_all(&mut self, ids: &Vec<usize>, p: usize, h: usize) -> (r: Option<usize>)
        requires
            old(self).wf(),
            old(self).header@.len() == old(self).columns@.len(),
            old(self).col_ids@.len() >= old(self).columns@.len(),
        ensures
            final(self).wf(),
            r matches Some(dec) ==> dec == dec_before(ids@, p as int, ids@.len() as int) && exists|t: Seq<ColParts>|
                {
                    &&& #[trigger] group_trace(t, ids@, p as int, h as int)
                    &&& t[0] == parts_of(*old(self))
                    &&& parts_of(*final(self)) == t.last()
                    &&& *final(self) == (Cells {
                        columns: final(self).columns,
                        header: final(self).header,
                        col_ids: final(self).col_ids,
                        ..*old(self)
                    })
                },
            r is None ==> exists|t: Seq<ColParts>, j: int|
                #[trigger] group_fails_at(t, ids@, p as int, h as int, j, old(self).columns@.len() as int) && t[0]
                    == parts_of(*old(self)),
    {
        let n = self.columns.len();
        let ghost c0 = *self;
        let ghost mut t: Seq<ColParts> = seq![parts_of(c0)];
        proof {
            reveal(group_steps);
        }
        let mut i: usize = 1;
        let mut dec: usize = 0;
        let mut j: usize = 0;
        while j < ids.len()
            invariant
                j <= ids@.len(),
                i == j + 1,
                dec == dec_before(ids@, p as int, j as int),
                dec <= j,
                n == c0.columns@.len(),
                c0 == *old(self),
                self.wf(),
                self.columns@.len() == n,
                self.header@.len() == n,
                self.col_ids@.len() == c0.col_ids@.len(),
                c0.col_ids@.len() >= n,
                t.len() == j + 1,
                t[0] == parts_of(c0),
                t.last() == parts_of(*self),
                group_steps(t, ids@, p as int, h as int, j as int),
                *self == (Cells { columns: self.columns, header: self.header, col_ids: self.col_ids, ..c0 }),
            decreases ids@.len() - j,
        {
            let id = ids[j];
            if id < p {
                dec = dec + 1;
            }
            proof {
                assert(dec_before(ids@, p as int, j + 1) == dec);
            }
            let a = if id < p {
                if id < dec - 1 {
                    assert(group_fails_at(t, ids@, p as int, h as int, j as int, n as int));
                    return None;
                }
                id - (dec - 1)
            } else {
                id
            };
            if p < dec || p - dec > usize::MAX - i {
                assert(group_fails_at(t, ids@, p as int, h as int, j as int, n as int));
                return None;
            }
            let x = p - dec + i;
            if a >= n || x >= n || h >= self.columns[a].indices.len() {
                assert(group_fails_at(t, ids@, p as int, h as int, j as int, n as int));
                return None;
            }
            let ghost pa = parts_of(*self);
            self.group_once(a, x, h);
            proof {
                assert(group_from(ids@, p as int, j as int) == a);
                assert(group_to(ids@, p as int, j as int) == x);
                lemma_group_steps_push(t, ids@, p as int, h as int, j as int, parts_of(*self));
                t = t.push(parts_of(*self));
            }
            i += 1;
            j += 1;
        }
        assert(group_trace(t, ids@, p as int, h as int));
        Some(dec)
    }
}

proof fn lemma_group_targets_prefix(c: Cells, toks: Seq<Seq<char>>, j: int)
    requires
        0 <= j <= toks.len(),
        group_targets(c, toks.take(j)) is Err,
    ensures
        group_targets(c, toks) == group_targets(c, toks.take(j)),
    decreases toks.len() - j,
{
    if j < toks.len() {
        assert(toks.take(j + 1).drop_last() =~= toks.take(j));
        lemma_group_targets_prefix(c, toks, j + 1);
        assert(toks.take(toks.len() as int) =~= toks);
    } else {
        assert(toks.take(j) =~= toks);
    }
}

/// Whether step `j` of a grouping behind column `p` can run on the parts
/// `pt` of a sheet of `n` columns, clearing row `h`.
pub open spec fn group_step_ok(pt: ColParts, ids: Seq<usize>, p: int, h: int, j: int, n: int) -> bool {
    let d1 = dec_before(ids, p, j + 1);
    let a = group_from(ids, p, j);
    let x = group_to(ids, p, j);
    &&& (ids[j] as int) < p ==> ids[j] >= dec_before(ids, p, j)
    &&& p >= d1
    &&& p - d1 + j + 1 <= usize::MAX
    &&& a < n
    &&& x < n
    &&& h < pt.cols[a].indices@.len()
}

/// Whether `t` traces the first `j` steps of a grouping, and step `j` cannot
/// run.
pub open spec fn group_fails_at(t: Seq<ColParts>, ids: Seq<usize>, p: int, h: int, j: int, n: int) -> bool {
    &&& 0 <= j < ids.len()
    &&& t.len() == j + 1
    &&& group_steps(t, ids, p, h, j)
    &&& !group_step_ok(t[j], ids, p, h, j, n)
}

/// What `group_columns` does once the leading column `p` and the other
/// columns `ids` were found: every column of `ids` is moved behind `p` in
/// turn (see `group_step`), stopping where a step cannot run; then the sheet
/// (or, when `p` is focused, the columns from it on) is drawn again with the
/// bottom line, and the sheet is marked as written.
pub open spec fn grouped(s0: WinInfo, c0: Cells, ids: Seq<usize>, p: int, s3: WinInfo, c3: Cells) -> bool {
    let n = c0.columns@.len() as int;
    let h = s0.h_pointer as int;
    if c0.header@.len() != c0.columns@.len() || c0.col_ids@.len() < c0.columns@.len() {
        s3.request is Abort
    } else {
        ||| s3.request is Abort && exists|t: Seq<ColParts>, j: int|
            #[trigger] group_fails_at(t, ids, p, h, j, n) && t[0] == parts_of(c0)
        ||| exists|t: Seq<ColParts>, c2: Cells|
            {
                &&& #[trigger] group_trace(t, ids, p, h)
                &&& t[0] == parts_of(c0)
                &&& parts_of(c2) == t.last()
                &&& c2 == (Cells { columns: c2.columns, header: c2.header, col_ids: c2.col_ids, ..c0 })
                &&& #[trigger] group_shown(s0, c2, p, dec_before(ids, p, ids.len() as int), s3, c3)
            }
    }
}

/// The drawing after a grouping behind column `p` that moved `dec` columns
/// from before it: the focus goes to `p - dec` and the sheet is drawn, or,
/// when `p` was focused, the columns from it on; then the bottom line and a
/// flush; the sheet is marked as written.
pub open spec fn group_shown(s0: WinInfo, c2: Cells, p: int, dec: int, s3: WinInfo, c3: Cells) -> bool {
    exists|s2: WinInfo, c4: Cells|
        {
            &&& #[trigger] group_drawn(s0, c2, p, dec, s2, c4)
            &&& c3 == (Cells { written: true, ..c4 })
            &&& if s2.request is Abort {
                s3 == s2
            } else {
                exists|m: WinInfo| #[trigger] crate::terminal::bottom_drawn(s2, m) && crate::terminal::flushed(m, s3)
            }
        }
}

/// The first drawing of `group_shown`.
pub open spec fn group_drawn(s0: WinInfo, c2: Cells, p: int, dec: int, s2: WinInfo, c4: Cells) -> bool {
    if s0.w_pointer as int != p {
        if p < dec {
            s2.request is Abort && c4 == c2
        } else {
            match crate::terminal::moved_w_pointer(s0, (p - dec) as usize) {
                None => s2.request is Abort && c4 == c2,
                Some(s1) => crate::render::screen_drawn(s1, c2, s2, c4),
            }
        }
    } else {
        crate::render::from_column_drawn(s0, c2, s2, c4)
    }
}

impl Cells {
    /// One step of a grouping (see `group_step`).
    #[verifier::rlimit(40)]
    fn group_once(&mut self, a: usize, x: usize, h: usize)
        requires
            old(self).wf(),
            a < old(self).columns@.len(),
            x < old(self).columns@.len(),
            old(self).header@.len() == old(self).columns@.len(),
            old(self).col_ids@.len() >= old(self).columns@.len(),
            h < old(self).columns@[a as int].indices@.len(),
        ensures
            final(self).wf(),
            final(self).columns@.len() == old(self).columns@.len(),
            final(self).header@.len() == old(self).header@.len(),
            final(self).col_ids@.len() == old(self).col_ids@.len(),
            group_step(parts_of(*old(self)), parts_of(*final(self)), a as int, x as int, h as int),
            *final(self) == (Cells { columns: final(self).columns, header: final(self).header, col_ids: final(self).col_ids, ..*old(self) }),
    {
        let n = self.columns.len();
        let ghost p = parts_of(*self);
        let mut col = self.columns.remove(a);
        proof {
            assert(col == p.cols[a as int]);
            assert(col.wf());
        }
        let c = col.get_cell(h);
        c.is_focused = false;
        let ghost moved = col;
        let name = self.header.remove(a);
        let w = col.width;
        self.columns.insert(x, col);
        self.header.insert(x, name);
        let cx = self.col_id_mut(x);
        cx.width = w;
        let wa = self.columns[a].width;
        let ca = self.col_id_mut(a);
        ca.width = wa;
        proof {
            assert(self.columns@ =~= p.cols.remove(a as int).insert(x as int, moved));
            assert(self.header@ =~= p.names.remove(a as int).insert(x as int, p.names[a as int]));
            assert(moved.wf());
            assert forall|k: int| 0 <= k < n implies (#[trigger] self.columns@[k]).wf() by {
                if k < x && k < a || k > x && k > a {
                    assert(self.columns@[k] == p.cols[k]);
                } else if k == x {
                    assert(self.columns@[k] == moved);
                } else if a < x {
                    assert(self.columns@[k] == p.cols[k + 1]);
                } else {
                    assert(self.columns@[k] == p.cols[k - 1]);
                }
            }
        }
    }
}

} // verus!

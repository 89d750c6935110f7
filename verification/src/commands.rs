//! The commands typed after `:`: what each does to the sheet and the
//! window, what it reports on the bottom line, and the errors it shows.
use vstd::prelude::*;

use crate::cells::{Cell, Cells, Column, Csvs};
use crate::cmd_err::CmdErr;
use crate::terminal::{Request, WinChange, WinInfo};
use crate::text::push_text;

verus! {

/// The window after the error `err` was written to the terminal on its
/// bottom line.
pub open spec fn reported(s0: WinInfo, err: CmdErr, s1: WinInfo) -> bool {
    &&& s1.out@ == s0.out@ + crate::cmd_err::message_text(err, s0.height as nat)
    &&& s1 == (WinInfo { out: s1.out, ..s0 })
}

/// The window after `t` was drawn on a cleared bottom line.
pub open spec fn bottom_set(s0: WinInfo, t: Seq<char>, s1: WinInfo) -> bool {
    &&& s1.frame@ == s0.frame@ + crate::terminal::line_start_text(s0.height as nat) + t
    &&& s1 == (WinInfo { frame: s1.frame, ..s0 })
}

/// The window after a full draw of the sheet, the bottom line and a flush.
pub open spec fn screen_redrawn(s0: WinInfo, c0: Cells, s2: WinInfo, c2: Cells) -> bool {
    exists|s1: WinInfo, c1: Cells|
        #[trigger] crate::render::screen_drawn(s0, c0, s1, c1) && crate::render::shown_after(s1, c1, true, s2, c2)
}

/// The window after the focused column and those after it were drawn, then
/// the bottom line, then a flush.
pub open spec fn column_redrawn(s0: WinInfo, c0: Cells, s2: WinInfo, c2: Cells) -> bool {
    exists|s1: WinInfo, c1: Cells|
        #[trigger] crate::render::from_column_drawn(s0, c0, s1, c1) && crate::render::shown_after(s1, c1, true, s2, c2)
}

/// The window after the frame was sent (or the step stopped).
pub open spec fn flushed_or_stopped(s1: WinInfo, s2: WinInfo) -> bool {
    if s1.request is Abort {
        s2 == s1
    } else {
        crate::terminal::flushed(s1, s2)
    }
}

/// What `print_col_count` does, from the window `win0` to `win1`.
pub open spec fn print_col_count_outcome(win0: WinInfo, win1: WinInfo) -> bool {
    &&& bottom_set(win0, crate::text::dec_text(win0.num_cols as nat) + " columns"@, win1)
}

/// What `print_row_count` does, from the window `win0` to `win1`.
pub open spec fn print_row_count_outcome(win0: WinInfo, win1: WinInfo) -> bool {
    &&& bottom_set(win0, crate::text::dec_text(win0.num_rows as nat) + " rows"@, win1)
}

impl WinInfo {
    /// Writes the error `err` on the bottom line of the terminal.
    pub fn report(&mut self, err: &CmdErr)
        ensures
            reported(*old(self), *err, *final(self)),
    {
        let m = crate::cmd_err::message(err, self.height);
        push_text(&mut self.out, m.as_str());
    }

    /// Draws `t` on a cleared bottom line.
    pub fn push_bottom(&mut self, t: &str)
        ensures
            bottom_set(*old(self), t@, *final(self)),
    {
        crate::terminal::push_line_start(&mut self.frame, self.height);
        push_text(&mut self.frame, t);
        proof {
            assert(self.frame@ =~= old(self).frame@ + crate::terminal::line_start_text(old(self).height as nat) + t@);
        }
    }

    /// Draws the whole sheet, the bottom line, and sends the frame.
    pub fn redraw_screen(&mut self, cells: &mut Cells)
        requires
            old(cells).wf(),
            old(self).wf(),
            !(old(self).request is Abort),
        ensures
            final(cells).wf(),
            final(self).wf(),
            screen_redrawn(*old(self), *old(cells), *final(self), *final(cells)),
    {
        self.draw_screen(cells);
        let ghost s1 = *self;
        let ghost c1 = *cells;
        self.finish_show_bottom();
        assert(crate::render::screen_drawn(*old(self), *old(cells), s1, c1));
    }

    /// Draws the focused column and those after it, the bottom line, and
    /// sends the frame.
    pub fn redraw_from_column(&mut self, cells: &mut Cells)
        requires
            old(cells).wf(),
            old(self).wf(),
            !(old(self).request is Abort),
        ensures
            final(cells).wf(),
            final(self).wf(),
            column_redrawn(*old(self), *old(cells), *final(self), *final(cells)),
    {
        self.draw_from_column(cells);
        let ghost s1 = *self;
        let ghost c1 = *cells;
        self.finish_show_bottom();
        assert(crate::render::from_column_drawn(*old(self), *old(cells), s1, c1));
    }

    fn finish_show_bottom(&mut self)
        requires
            old(self).wf(),
        ensures
            final(self).wf(),
            if old(self).request is Abort {
                *final(self) == *old(self)
            } else {
                exists|m: WinInfo|
                    #[trigger] crate::terminal::bottom_drawn(*old(self), m) && crate::terminal::flushed(m, *final(self))
            },
    {
        if self.is_aborted() {
            return;
        }
        self.draw_focused_content();
        let ghost m = *self;
        self.flush();
        assert(crate::terminal::bottom_drawn(*old(self), m));
    }

    /// Sends the frame unless the step was stopped.
    pub fn flush_live(&mut self)
        ensures
            flushed_or_stopped(*old(self), *final(self)),
    {
        if self.is_aborted() {
            return;
        }
        self.flush();
    }

    /// Shows how many columns the sheet has.
    pub fn print_col_count(&mut self)
        requires
            old(self).wf(),
        ensures
            final(self).wf(),
            print_col_count_outcome(*old(self), *final(self)),
    {
        let mut t = String::new();
        crate::text::push_dec(&mut t, self.num_cols);
        push_text(&mut t, " columns");
        self.push_bottom(t.as_str());
    }

    /// Shows how many rows the sheet has.
    pub fn print_row_count(&mut self)
        requires
            old(self).wf(),
        ensures
            final(self).wf(),
            print_row_count_outcome(*old(self), *final(self)),
    {
        let mut t = String::new();
        crate::text::push_dec(&mut t, self.num_rows);
        push_text(&mut t, " rows");
        self.push_bottom(t.as_str());
    }
}

} // verus!

verus! {

/// The window stopped with `why`, the rest as it was but for what drawing
/// leaves behind (frame, bottom-line text and cursor).
pub open spec fn stopped(s0: WinInfo, s1: WinInfo) -> bool {
    s1.request is Abort
}

/// What `show_column_name` does to the window `win0` and the sheet `sheet0`,
/// giving `win1` and `sheet1`.
pub open spec fn show_column_name_outcome(win0: WinInfo, sheet0: Cells, win1: WinInfo, sheet1: Cells) -> bool {
    &&& sheet1 == sheet0
    &&& win0.w_pointer >= sheet0.header@.len() ==> win1.request is Abort
    &&& win0.w_pointer < sheet0.header@.len() ==> exists|m: WinInfo|
        #[trigger] bottom_set(win0, sheet0.header@[win0.w_pointer as int].content@, m)
            && crate::terminal::flushed(m, win1)
}

/// What `change_col_name` does to the window `win0` and the sheet `sheet0`,
/// giving `win1` and `sheet1`.
pub open spec fn change_col_name_outcome(win0: WinInfo, sheet0: Cells, new_name: &str, win1: WinInfo, sheet1: Cells) -> bool {
    &&& ({
        let wp = win0.w_pointer;
        if new_name@.len() == 0 || wp >= sheet0.header@.len() || wp >= sheet0.columns@.len() {
            win1.request is Abort
        } else {
            let c1 = Cells {
                header: sheet1.header,
                written: true,
                ..sheet0
            };
            let start = sheet0.columns@[wp as int].start;
            &&& sheet1 == c1
            &&& sheet1.header@ == sheet0.header@.update(
                wp as int,
                Cell { content: sheet1.header@[wp as int].content, ..sheet0.header@[wp as int] },
            )
            &&& sheet1.header@[wp as int].content@ == crate::parse::trimmed(new_name@)
            &&& match crate::render::names_line(
                c1.header@,
                wp as int,
                start as int,
                win0.width as int,
                win0.num_cols as int,
            ) {
                Some(t) => exists|m1: WinInfo, m2: WinInfo|
                    {
                        &&& m1.frame@ == win0.frame@ + crate::render::clear_from_text(2, start as nat) + t
                        &&& m1 == (WinInfo { frame: m1.frame, ..win0 })
                        &&& #[trigger] crate::terminal::bottom_drawn(m1, m2)
                        &&& crate::terminal::flushed(m2, win1)
                    },
                None => win1.request is Abort,
            }
        }
    })
}

/// What `show_row_num` does, from the window `win0` to `win1`.
pub open spec fn show_row_num_outcome(win0: WinInfo, win1: WinInfo) -> bool {
    &&& ({
        let t = crate::text::dec_text(win0.h_pointer as nat);
        let take = crate::cells::min_usize(crate::cells::byte_len(t) as usize, win0.width);
        if vstd::utf8::is_char_boundary(vstd::utf8::encode_utf8(t), take as int) {
            exists|m1: WinInfo, m2: WinInfo|
                {
                    &&& vstd::utf8::encode_utf8(m1.focused_content@) == vstd::utf8::encode_utf8(t).take(take as int)
                    &&& m1 == (WinInfo { focused_content: m1.focused_content, ..win0 })
                    &&& #[trigger] crate::terminal::bottom_drawn(m1, m2)
                    &&& crate::terminal::flushed(m2, win1)
                }
        } else {
            win1.request is Abort
        }
    })
}

impl WinInfo {
    /// Takes the quotes off `q`; stops the step when `q` is empty.
    pub fn trim_or_stop(&mut self, q: &str) -> (r: Option<String>)
        ensures
            q@.len() > 0 ==> (r matches Some(t) && t@ == crate::parse::trimmed(q@)) && *final(self) == *old(self),
            q@.len() == 0 ==> r is None && *final(self) == (WinInfo {
                request: Request::Abort("called `Option::unwrap()` on a `None` value"),
                ..*old(self)
            }),
    {
        if q.unicode_len() == 0 {
            self.abort("called `Option::unwrap()` on a `None` value");
            return None;
        }
        Some(crate::parse::trim_quotes(q))
    }

    /// Shows the focused row's number in decimal on the bottom line.
    pub fn show_row_num(&mut self)
        requires
            !(old(self).request is Abort),
            old(self).wf(),
        ensures
            final(self).wf(),
            show_row_num_outcome(*old(self), *final(self)),
    {
        let mut t = String::new();
        crate::text::push_dec(&mut t, self.h_pointer);
        self.set_focused(t.as_str());
        if self.is_aborted() {
            return;
        }
        let ghost m1 = *self;
        self.draw_focused_content();
        let ghost m2 = *self;
        self.flush();
        assert(crate::terminal::bottom_drawn(m1, m2));
    }

    /// Shows the focused column's name on the bottom line.
    pub fn show_column_name(&mut self, cells: &mut Cells)
        requires
            old(self).wf(),
        ensures
            final(self).wf(),
            show_column_name_outcome(*old(self), *old(cells), *final(self), *final(cells)),
    {
        if self.w_pointer >= cells.header.len() {
            self.abort("index out of bounds");
            return;
        }
        let ghost s0 = *self;
        self.push_bottom(cells.header[self.w_pointer].content.as_str());
        let ghost m = *self;
        self.flush();
        assert(bottom_set(s0, cells.header@[s0.w_pointer as int].content@, m));
    }

    /// Renames the focused column to `new_name` (without its quotes) and
    /// draws the names again from that column on.
    pub fn change_col_name(&mut self, cells: &mut Cells, new_name: &str)
        requires
            old(self).wf(),
            !(old(self).request is Abort),
            old(cells).wf(),
        ensures
            final(self).wf(),
            final(cells).wf(),
            change_col_name_outcome(*old(self), *old(cells), new_name, *final(self), *final(cells)),
    {
        let t = match self.trim_or_stop(new_name) {
            Some(t) => t,
            None => {
                return;
            },
        };
        let wp = self.w_pointer;
        if wp >= cells.header.len() || wp >= cells.columns.len() {
            self.abort("index out of bounds");
            return;
        }
        cells.header_mut(wp).content = t;
        cells.written = true;
        let start = cells.columns[wp].start;
        let ghost f0 = self.frame@;
        crate::terminal::push_goto(&mut self.frame, 2, start);
        push_text(&mut self.frame, "\x1b[K\x1b[4m");
        self.print_header(cells, wp, start);
        if self.is_aborted() {
            return;
        }
        proof {
            let tt = crate::render::names_line(cells.header@, wp as int, start as int, self.width as int, self.num_cols as int)->0;
            assert(self.frame@ =~= f0 + crate::render::clear_from_text(2, start as nat) + tt);
        }
        let ghost m1 = *self;
        self.draw_focused_content();
        let ghost m2 = *self;
        self.flush();
        assert(crate::terminal::bottom_drawn(m1, m2));
    }
}

} // verus!

verus! {

/// The first of the column names `h`, looked at from column `w` on and
/// wrapping around, that contains `name`; counting `i` names looked at.
pub open spec fn find_from(h: Seq<Cell>, w: int, name: Seq<char>, i: int) -> Option<int>
    decreases h.len() - i,
{
    if i >= h.len() || i < 0 {
        None
    } else {
        let k = if w + i < h.len() {
            w + i
        } else {
            w + i - h.len()
        };
        if crate::text::contains_text(h[k].content@, name) {
            Some(k)
        } else {
            find_from(h, w, name, i + 1)
        }
    }
}

/// The sheet `f` is `o` with the stored cells of column `k` given the models
/// `m` and the sheet marked as written.
pub open spec fn column_cells_set(o: Cells, f: Cells, k: int, m: Seq<crate::cells::CellModel>) -> bool {
    &&& f.columns@.len() == o.columns@.len()
    &&& forall|j: int| 0 <= j < o.columns@.len() && j != k ==> #[trigger] f.columns@[j] == o.columns@[j]
    &&& crate::cells::cells_model(f.columns@[k].cells@) == m
    &&& f.columns@[k].indices@ == o.columns@[k].indices@
    &&& f.columns@[k].padding == o.columns@[k].padding
    &&& f.columns@[k].start == o.columns@[k].start
    &&& f.columns@[k].width == o.columns@[k].width
    &&& f == (Cells { columns: f.columns, written: true, ..o })
}

/// What `find_column` does to the window `win0` and the sheet `sheet0`,
/// giving `win1` and `sheet1`.
pub open spec fn find_column_outcome(win0: WinInfo, sheet0: Cells, name: &str, win1: WinInfo, sheet1: Cells) -> bool {
    &&& ({
        let h = sheet0.header@;
        let t = crate::parse::trimmed(name@);
        if name@.len() == 0 {
            win1.request is Abort
        } else if h.len() == 0 {
            sheet1 == sheet0 && exists|e: CmdErr| #[trigger] reported(win0, e, win1)
                && e == CmdErr::NoNameContains(e->NoNameContains_0) && e->NoNameContains_0@ == t
        } else if win0.w_pointer >= h.len() {
            win1.request is Abort
        } else {
            match find_from(h, win0.w_pointer as int, t, 0) {
                None => sheet1 == sheet0 && exists|e: CmdErr|
                    #[trigger] reported(win0, e, win1) && e == CmdErr::NoNameContains(
                        e->NoNameContains_0,
                    ) && e->NoNameContains_0@ == t,
                Some(k) => match crate::terminal::moved_w_pointer(win0, k as usize) {
                    None => win1.request is Abort,
                    Some(s1) => exists|s2: WinInfo, c2: Cells|
                        {
                            &&& #[trigger] crate::render::csv_shown(
                                WinInfo { changed: WinChange::Columns, ..s1 },
                                sheet0,
                                s2,
                                c2,
                            )
                            &&& sheet1 == c2
                            &&& if s2.request is Abort {
                                win1 == s2
                            } else {
                                bottom_set(s2, h[k].content@, win1)
                            }
                        },
                },
            }
        }
    })
}

/// What `col_fillna` does to the window `win0` and the sheet `sheet0`,
/// giving `win1` and `sheet1`.
pub open spec fn col_fillna_outcome(win0: WinInfo, sheet0: Cells, val: &str, win1: WinInfo, sheet1: Cells) -> bool {
    &&& ({
        let wp = win0.w_pointer as int;
        if val@.len() == 0 || wp >= sheet0.columns@.len() {
            win1.request is Abort
        } else {
            exists|c1: Cells|
                #[trigger] column_cells_set(
                    sheet0,
                    c1,
                    wp,
                    crate::cells::filled(sheet0.columns@[wp].cells@, crate::parse::trimmed(val@)),
                ) && column_redrawn(win0, c1, win1, sheet1)
        }
    })
}

/// What `replace_in_col` does to the window `win0` and the sheet `sheet0`,
/// giving `win1` and `sheet1`.
pub open spec fn replace_in_col_outcome(win0: WinInfo, sheet0: Cells, targ: &str, new: &str, win1: WinInfo, sheet1: Cells) -> bool {
    &&& ({
        let wp = win0.w_pointer as int;
        if targ@.len() == 0 || new@.len() == 0 || wp >= sheet0.columns@.len() {
            win1.request is Abort
        } else {
            exists|c1: Cells|
                #[trigger] column_cells_set(
                    sheet0,
                    c1,
                    wp,
                    crate::cells::replaced(
                        sheet0.columns@[wp].cells@,
                        crate::parse::trimmed(targ@),
                        crate::parse::trimmed(new@),
                    ),
                ) && column_redrawn(win0, c1, win1, sheet1)
        }
    })
}

impl WinInfo {
    /// Moves the focus to the first column, from the focused one on and
    /// wrapping around, whose name contains `name` (without its quotes), then
    /// shows that name; else shows an error.
    pub fn find_column(&mut self, cells: &mut Cells, name: &str)
        requires
            old(self).wf(),
            old(cells).wf(),
            !(old(self).request is Abort),
        ensures
            final(self).wf(),
            final(cells).wf(),
            find_column_outcome(*old(self), *old(cells), name, *final(self), *final(cells)),
    {
        let t = match self.trim_or_stop(name) {
            Some(t) => t,
            None => {
                return;
            },
        };
        let n = cells.header.len();
        if n == 0 {
            let e = CmdErr::NoNameContains(t.as_str());
            self.report(&e);
            return;
        }
        if self.w_pointer >= n {
            self.abort("index out of bounds");
            return;
        }
        let tv = crate::text::to_chars(t.as_str());
        let mut next = self.w_pointer;
        let mut i: usize = 0;
        while i < n
            invariant
                n == cells.header@.len(),
                *cells == *old(cells),
                *self == *old(self),
                self.wf(),
                cells.wf(),
                !(self.request is Abort),
                tv@ == t@,
                name@.len() > 0,
                t@ == crate::parse::trimmed(name@),
                old(self).w_pointer < n,
                i <= n,
                next == if old(self).w_pointer + i < n {
                    old(self).w_pointer + i
                } else {
                    old(self).w_pointer + i - n
                },
                find_from(cells.header@, old(self).w_pointer as int, t@, 0) == find_from(
                    cells.header@,
                    old(self).w_pointer as int,
                    t@,
                    i as int,
                ),
            decreases n - i,
        {
            let cv = crate::text::to_chars(cells.header[next].content.as_str());
            if crate::text::contains_chars(&cv, &tv) {
                assert(find_from(cells.header@, old(self).w_pointer as int, t@, i as int) == Some(next as int));
                let nm = crate::text::text_of(cells.header[next].content.as_str());
                self.set_w_pointer(next);
                if self.is_aborted() {
                    return;
                }
                self.changed = WinChange::Columns;
                let ghost s1 = *self;
                self.show_csv(cells);
                let ghost s2 = *self;
                let ghost c2 = *cells;
                if self.is_aborted() {
                    assert(crate::render::csv_shown(s1, *old(cells), s2, c2));
                    return;
                }
                self.push_bottom(nm.as_str());
                assert(crate::render::csv_shown(s1, *old(cells), s2, c2));
                return;
            }
            next = if next + 1 == n {
                0
            } else {
                next + 1
            };
            i += 1;
        }
        let e = CmdErr::NoNameContains(t.as_str());
        self.report(&e);
    }

    /// Gives every empty stored cell of the focused column the text `val`
    /// (without its quotes) and draws that column and those after it again.
    pub fn col_fillna(&mut self, cells: &mut Cells, val: &str)
        requires
            old(self).wf(),
            old(cells).wf(),
            !(old(self).request is Abort),
        ensures
            final(self).wf(),
            final(cells).wf(),
            col_fillna_outcome(*old(self), *old(cells), val, *final(self), *final(cells)),
    {
        let t = match self.trim_or_stop(val) {
            Some(t) => t,
            None => {
                return;
            },
        };
        let wp = self.w_pointer;
        if wp >= cells.columns.len() {
            self.abort("index out of bounds");
            return;
        }
        cells.get_column(wp).fill_empty(t.as_str());
        cells.written = true;
        let ghost c1 = *cells;
        proof {
            assert(c1.wf()) by {
                assert forall|k: int| 0 <= k < c1.columns@.len() implies (#[trigger] c1.columns@[k]).wf() by {
                    if k != wp {
                        assert(c1.columns@[k] == old(cells).columns@[k]);
                    }
                }
            }
        }
        self.redraw_from_column(cells);
        assert(column_cells_set(
            *old(cells),
            c1,
            wp as int,
            crate::cells::filled(old(cells).columns@[wp as int].cells@, crate::parse::trimmed(val@)),
        ));
    }

    /// Replaces `targ` by `new` (both without their quotes) in every stored
    /// cell of the focused column that contains it, and draws that column and
    /// those after it again.
    pub fn replace_in_col(&mut self, cells: &mut Cells, targ: &str, new: &str)
        requires
            old(self).wf(),
            old(cells).wf(),
            !(old(self).request is Abort),
        ensures
            final(self).wf(),
            final(cells).wf(),
            replace_in_col_outcome(*old(self), *old(cells), targ, new, *final(self), *final(cells)),
    {
        let t = match self.trim_or_stop(targ) {
            Some(t) => t,
            None => {
                return;
            },
        };
        let n = match self.trim_or_stop(new) {
            Some(t) => t,
            None => {
                return;
            },
        };
        let wp = self.w_pointer;
        if wp >= cells.columns.len() {
            self.abort("index out of bounds");
            return;
        }
        cells.get_column(wp).replace_all(t.as_str(), n.as_str());
        cells.written = true;
        let ghost c1 = *cells;
        proof {
            assert(c1.wf()) by {
                assert forall|k: int| 0 <= k < c1.columns@.len() implies (#[trigger] c1.columns@[k]).wf() by {
                    if k != wp {
                        assert(c1.columns@[k] == old(cells).columns@[k]);
                    }
                }
            }
        }
        self.redraw_from_column(cells);
        assert(column_cells_set(
            *old(cells),
            c1,
            wp as int,
            crate::cells::replaced(
                old(cells).columns@[wp as int].cells@,
                crate::parse::trimmed(targ@),
                crate::parse::trimmed(new@),
            ),
        ));
    }
}

} // verus!

verus! {

/// The sheet `f` is `o` with the focused cell's focus flag cleared.
pub open spec fn focus_cleared(o: Cells, f: Cells) -> bool {
    &&& f.wf()
    &&& f.grid() == crate::cells::set_focus(o.grid(), o.w_cell.0 as int, o.w_cell.1 as int, false)
    &&& f.col_meta() == o.col_meta()
    &&& f.columns@.len() == o.columns@.len()
    &&& forall|k: int|
        0 <= k < o.columns@.len() ==> (#[trigger] f.columns@[k]).indices@ == o.columns@[k].indices@
            && f.columns@[k].cells@.len() == o.columns@[k].cells@.len()
    &&& f == (Cells { columns: f.columns, ..o })
}

/// The number of rows a column's sort covers: its stored cells less twice
/// its padding.
pub open spec fn sort_span(c: Column) -> int {
    crate::cells::sat_sub(crate::cells::sat_sub(c.cells@.len() as usize, c.padding), c.padding) as int
}

/// The sheet `f` is `o` with the rows of column `k` sorted stably in the
/// order `dir` (numbers given by `keys`).
pub open spec fn column_sorted(o: Cells, f: Cells, k: int, keys: Seq<u32>, dir: crate::sort::Sort) -> bool {
    &&& f.wf()
    &&& f.columns@.len() == o.columns@.len()
    &&& forall|j: int| 0 <= j < o.columns@.len() && j != k ==> #[trigger] f.columns@[j] == o.columns@[j]
    &&& crate::sort::sorted_rows(o.columns@[k], keys, dir, sort_span(o.columns@[k]), f.columns@[k].indices@)
    &&& f.columns@[k] == (Column { indices: f.columns@[k].indices, ..o.columns@[k] })
    &&& f == (Cells { columns: f.columns, ..o })
}

/// What `sort_focused_column` does to the window `win0` and the sheet `sheet0`,
/// giving `win1` and `sheet1`.
pub open spec fn sort_focused_column_outcome(win0: WinInfo, sheet0: Cells, dir: crate::sort::Sort, win1: WinInfo, sheet1: Cells) -> bool {
    &&& (dir is AscNum || dir is DescNum) ==> sheet1 == sheet0 && win1 == (WinInfo {
        request: Request::NumericSort {
            col: win0.w_pointer,
            desc: dir is DescNum,
            whole_sheet: false,
        },
        ..win0
    })
    &&& !(dir is AscNum || dir is DescNum) ==> sorted_and_drawn(
        win0,
        sheet0,
        Seq::empty(),
        dir,
        win1,
        sheet1,
    )
}

impl WinInfo {
    /// Clears the focus flag of the sheet's focused cell; stops the step when
    /// that cell is missing.
    pub fn unfocus(&mut self, cells: &mut Cells)
        requires
            old(cells).wf(),
        ensures
            final(cells).wf(),
            old(cells).has_cell(old(cells).w_cell.0, old(cells).w_cell.1) ==> focus_cleared(*old(cells), *final(cells))
                && *final(self) == *old(self),
            !old(cells).has_cell(old(cells).w_cell.0, old(cells).w_cell.1) ==> *final(cells) == *old(cells)
                && *final(self) == (WinInfo { request: Request::Abort("index out of bounds"), ..*old(self) }),
    {
        let (c, r) = cells.w_cell;
        if !cells.has_cell_exec(c, r) {
            self.abort("index out of bounds");
            return;
        }
        cells.set_focus_at(c, r, false);
    }

    /// Sorts the rows of `col` stably in the order `dir`: those of its stored
    /// cells less twice its padding.
    pub fn sort_indices(col: &mut Column, dir: crate::sort::Sort, keys: &Vec<u32>)
        requires
            old(col).wf(),
        ensures
            final(col).wf(),
            crate::sort::sorted_rows(*old(col), keys@, dir, sort_span(*old(col)), final(col).indices@),
            *final(col) == (Column { indices: final(col).indices, ..*old(col) }),
    {
        let nc = col.cells.len();
        let vis = crate::cells::sat_sub_exec(col.len(), col.padding);
        assert(vis as int == sort_span(*col));
        col.sort_rows(dir, keys, vis);
    }

    /// Sorts the rows of the focused column stably in the order `dir` (the
    /// numeric orders need keys from outside: they are asked for), moves the
    /// focus back to the pointers and draws that column and those after it.
    pub fn sort_focused_column(&mut self, cells: &mut Cells, dir: crate::sort::Sort)
        requires
            old(self).wf(),
            old(cells).wf(),
            !(old(self).request is Abort),
        ensures
            final(self).wf(),
            final(cells).wf(),
            sort_focused_column_outcome(*old(self), *old(cells), dir, *final(self), *final(cells)),
    {
        match dir {
            crate::sort::Sort::AscNum => {
                self.request = Request::NumericSort { col: self.w_pointer, desc: false, whole_sheet: false };
            },
            crate::sort::Sort::DescNum => {
                self.request = Request::NumericSort { col: self.w_pointer, desc: true, whole_sheet: false };
            },
            _ => {
                let keys: Vec<u32> = Vec::new();
                self.sort_column_with(cells, dir, &keys);
            },
        }
    }

    /// Sorts the focused column in the order `dir` using `keys` for numbers.
    pub fn sort_column_with(&mut self, cells: &mut Cells, dir: crate::sort::Sort, keys: &Vec<u32>)
        requires
            old(self).wf(),
            old(cells).wf(),
            !(old(self).request is Abort),
        ensures
            final(self).wf(),
            final(cells).wf(),
            sorted_and_drawn(*old(self), *old(cells), keys@, dir, *final(self), *final(cells)),
    {
        let ghost c0 = *cells;
        self.unfocus(cells);
        if self.is_aborted() {
            return;
        }
        let ghost c1 = *cells;
        let wp = self.w_pointer;
        if wp >= cells.columns.len() {
            self.abort("index out of bounds");
            return;
        }
        let ghost k = wp as int;
        Self::sort_indices(cells.get_column(wp), dir, keys);
        let ghost c2 = *cells;
        proof {
            assert(c2.wf()) by {
                assert forall|j: int| 0 <= j < c2.columns@.len() implies (#[trigger] c2.columns@[j]).wf() by {
                    if j != k {
                        assert(c2.columns@[j] == c1.columns@[j]);
                    }
                }
            }
            assert(column_sorted(c1, c2, k, keys@, dir));
        }
        let hp = self.h_pointer;
        self.refocus(cells, wp, hp);
        if self.is_aborted() {
            return;
        }
        cells.written = true;
        let ghost c3 = *cells;
        self.redraw_from_column(cells);
        assert(focus_cleared(c0, c1));
        assert(column_sorted(c1, c2, k, keys@, dir));
    }
}

/// What sorting the focused column does: the focus flag is cleared, the
/// column's rows are sorted, the focus moves to the pointers, the sheet is
/// marked as written and the column and those after it are drawn again.
pub open spec fn sorted_and_drawn(
    s0: WinInfo,
    c0: Cells,
    keys: Seq<u32>,
    dir: crate::sort::Sort,
    s2: WinInfo,
    c2: Cells,
) -> bool {
    if !c0.has_cell(c0.w_cell.0, c0.w_cell.1) || s0.w_pointer >= c0.columns@.len() {
        s2.request is Abort
    } else {
        exists|c1: Cells, cs: Cells|
            {
                &&& #[trigger] focus_cleared(c0, c1)
                &&& #[trigger] column_sorted(c1, cs, s0.w_pointer as int, keys, dir)
                &&& if !crate::render::can_refocus(cs, s0.w_pointer, s0.h_pointer) {
                    s2.request is Abort
                } else {
                    exists|c3: Cells|
                        {
                            &&& #[trigger] crate::render::refocused(cs, c3, s0.w_pointer, s0.h_pointer)
                            &&& column_redrawn(s0, Cells { written: true, ..c3 }, s2, c2)
                        }
                }
            }
    }
}

} // verus!

verus! {

/// The sheet `f` is `o` with every column given the row order of column
/// `k`.
pub open spec fn order_copied(o: Cells, f: Cells, k: int) -> bool {
    &&& f.wf()
    &&& f.columns@.len() == o.columns@.len()
    &&& forall|j: int|
        0 <= j < o.columns@.len() ==> #[trigger] f.columns@[j] == (Column {
            indices: f.columns@[j].indices,
            ..o.columns@[j]
        }) && f.columns@[j].indices@ == o.columns@[k].indices@
    &&& f == (Cells { columns: f.columns, ..o })
}

/// Whether every column stores as many cells as column `k`.
pub open spec fn same_lengths(c: Cells, k: int) -> bool {
    forall|j: int| 0 <= j < c.columns@.len() ==> (#[trigger] c.columns@[j]).cells@.len() == c.columns@[k].cells@.len()
}

/// What sorting the sheet by column `k` does: the focus flag is cleared,
/// column `k`'s rows are sorted, every column takes its row order, the sheet
/// is marked as written, the focus moves to the pointers and the screen is
/// drawn again. (Columns of other lengths stop the step.)
pub open spec fn sheet_sorted_and_drawn(
    s0: WinInfo,
    c0: Cells,
    k: int,
    keys: Seq<u32>,
    dir: crate::sort::Sort,
    s2: WinInfo,
    c2: Cells,
) -> bool {
    if !c0.has_cell(c0.w_cell.0, c0.w_cell.1) || k >= c0.columns@.len() || !same_lengths(c0, k) {
        s2.request is Abort
    } else {
        exists|c1: Cells, cs: Cells, co: Cells|
            {
                &&& #[trigger] focus_cleared(c0, c1)
                &&& #[trigger] column_sorted(c1, cs, k, keys, dir)
                &&& #[trigger] order_copied(cs, co, k)
                &&& if !crate::render::can_refocus(co, s0.w_pointer, s0.h_pointer) {
                    s2.request is Abort
                } else {
                    exists|c3: Cells|
                        {
                            &&& #[trigger] crate::render::refocused(
                                Cells { written: true, ..co },
                                c3,
                                s0.w_pointer,
                                s0.h_pointer,
                            )
                            &&& screen_redrawn(s0, c3, s2, c2)
                        }
                }
            }
    }
}

impl WinInfo {
    /// Sorts the sheet by column `k` in the order `dir` (numbers from
    /// `keys`) and draws the screen again.
    pub fn sheet_sort_with(&mut self, cells: &mut Cells, k: usize, dir: crate::sort::Sort, keys: &Vec<u32>)
        requires
            old(self).wf(),
            old(cells).wf(),
            !(old(self).request is Abort),
        ensures
            final(self).wf(),
            final(cells).wf(),
            sheet_sorted_and_drawn(*old(self), *old(cells), k as int, keys@, dir, *final(self), *final(cells)),
    {
        let ghost c0 = *cells;
        self.unfocus(cells);
        if self.is_aborted() {
            return;
        }
        let ghost c1 = *cells;
        if k >= cells.columns.len() {
            self.abort("index out of bounds");
            return;
        }
        Self::sort_indices(cells.get_column(k), dir, keys);
        let ghost cs = *cells;
        proof {
            assert(cs.wf()) by {
                assert forall|j: int| 0 <= j < cs.columns@.len() implies (#[trigger] cs.columns@[j]).wf() by {
                    if j != k {
                        assert(cs.columns@[j] == c1.columns@[j]);
                    }
                }
            }
            assert(column_sorted(c1, cs, k as int, keys@, dir));
        }
        if !cells.copy_order(k) {
            proof {
                assert(!same_lengths(c0, k as int)) by {
                    if same_lengths(c0, k as int) {
                        assert forall|j: int| 0 <= j < cs.columns@.len() implies (#[trigger] cs.columns@[j]).cells@.len()
                            == cs.columns@[k as int].cells@.len() by {
                            assert(c1.columns@[j].cells@.len() == c0.columns@[j].cells@.len());
                            assert(c1.columns@[k as int].cells@.len() == c0.columns@[k as int].cells@.len());
                            if j != k {
                                assert(cs.columns@[j] == c1.columns@[j]);
                            }
                        }
                    }
                }
            }
            self.abort("index out of bounds");
            return;
        }
        let ghost co = *cells;
        proof {
            assert(same_lengths(c0, k as int)) by {
                assert forall|j: int| 0 <= j < c0.columns@.len() implies (#[trigger] c0.columns@[j]).cells@.len()
                    == c0.columns@[k as int].cells@.len() by {
                    assert(cs.columns@[j].cells@.len() == cs.columns@[k as int].cells@.len());
                    assert(c1.columns@[j].cells@.len() == c0.columns@[j].cells@.len());
                    assert(c1.columns@[k as int].cells@.len() == c0.columns@[k as int].cells@.len());
                    if j != k {
                        assert(cs.columns@[j] == c1.columns@[j]);
                    }
                }
            }
            assert(order_copied(cs, co, k as int));
        }
        cells.written = true;
        let (wp, hp) = (self.w_pointer, self.h_pointer);
        self.refocus(cells, wp, hp);
        if self.is_aborted() {
            return;
        }
        let ghost c3 = *cells;
        self.redraw_screen(cells);
        assert(focus_cleared(c0, c1));
        assert(column_sorted(c1, cs, k as int, keys@, dir));
        assert(order_copied(cs, co, k as int));
        assert(crate::render::refocused(Cells { written: true, ..co }, c3, wp, hp));
    }
}

} // verus!

verus! {

/// The column a command names with `id` is looked up: stop when `id`
/// cannot be read as a column reference; show the lookup's error; else go
/// on with the column found.
pub open spec fn lookup_outcome(c: Cells, id: Seq<char>) -> Option<Option<int>> {
    if !crate::cells::col_ref_ok(id) {
        None
    } else {
        Some(crate::sort::col_target(c, id))
    }
}

/// The error shown when `id` names no column.
pub open spec fn lookup_error<'a>(id: &'a str) -> CmdErr<'a> {
    if crate::cells::is_quote(id@[0]) {
        CmdErr::NoName(id)
    } else {
        CmdErr::NoId(id)
    }
}

/// What `sort_by` does to the window `win0` and the sheet `sheet0`,
/// giving `win1` and `sheet1`.
pub open spec fn sort_by_outcome(win0: WinInfo, sheet0: Cells, col_name: &str, dir: crate::sort::Sort, win1: WinInfo, sheet1: Cells) -> bool {
    &&& match lookup_outcome(sheet0, col_name@) {
        None => win1.request is Abort,
        Some(None) => sheet1 == sheet0 && reported(win0, lookup_error(col_name), win1),
        Some(Some(k)) => if dir is AscNum || dir is DescNum {
            sheet1 == sheet0 && win1 == (WinInfo {
                request: Request::NumericSort { col: k as usize, desc: dir is DescNum, whole_sheet: true },
                ..win0
            })
        } else {
            sheet_sorted_and_drawn(win0, sheet0, k, Seq::empty(), dir, win1, sheet1)
        },
    }
}

impl WinInfo {
    /// Looks up the column that `id` names; stops the step when `id` is no
    /// column reference and shows the error when none matches.
    pub fn lookup_column(&mut self, cells: &Cells, id: &str) -> (r: Option<usize>)
        ensures
            lookup_outcome(*cells, id@) is None ==> r is None && *final(self) == (WinInfo {
                request: Request::Abort("attempt to subtract with overflow"),
                ..*old(self)
            }),
            lookup_outcome(*cells, id@) == Some(None::<int>) ==> r is None && reported(*old(self), lookup_error(id), *final(self)),
            lookup_outcome(*cells, id@) matches Some(Some(k)) ==> r == Some(k as usize) && *final(self) == *old(self)
                && 0 <= k <= usize::MAX,
    {
        let _hl = cells.header.len();
        let _il = cells.col_ids.len();
        proof {
            crate::sort::lemma_first_with_bound(cells.header@, crate::cells::quoted_name(id@), 0);
            crate::sort::lemma_first_with_bound(cells.col_ids@, id@, 0);
        }
        if !crate::sort::col_ref_ok_exec(id) {
            self.abort("attempt to subtract with overflow");
            return None;
        }
        match cells.col_lookup(id) {
            Ok(k) => Some(k),
            Err(e) => {
                self.report(&e);
                None
            },
        }
    }

    /// Sorts the whole sheet by the column named `col_name` in the order
    /// `dir`; the numeric orders ask for keys from outside first.
    pub fn sort_by(&mut self, cells: &mut Cells, col_name: &str, dir: crate::sort::Sort)
        requires
            old(self).wf(),
            old(cells).wf(),
            !(old(self).request is Abort),
        ensures
            final(self).wf(),
            final(cells).wf(),
            sort_by_outcome(*old(self), *old(cells), col_name, dir, *final(self), *final(cells)),
    {
        let k = match self.lookup_column(cells, col_name) {
            Some(k) => k,
            None => {
                return;
            },
        };
        match dir {
            crate::sort::Sort::AscNum => {
                self.request = Request::NumericSort { col: k, desc: false, whole_sheet: true };
            },
            crate::sort::Sort::DescNum => {
                self.request = Request::NumericSort { col: k, desc: true, whole_sheet: true };
            },
            _ => {
                let keys: Vec<u32> = Vec::new();
                self.sheet_sort_with(cells, k, dir, &keys);
            },
        }
    }
}

/// What finishing a numeric sort does with the keys given for the asked
/// column.
pub open spec fn numeric_sort_done(s0: WinInfo, c0: Cells, keys: Seq<u32>, s2: WinInfo, c2: Cells) -> bool {
    match s0.request {
        Request::NumericSort { col, desc, whole_sheet } => {
            let s1 = WinInfo { request: Request::Non, ..s0 };
            let dir = if desc {
                crate::sort::Sort::DescNum
            } else {
                crate::sort::Sort::AscNum
            };
            if whole_sheet {
                sheet_sorted_and_drawn(s1, c0, col as int, keys, dir, s2, c2)
            } else {
                sorted_and_drawn(s1, c0, keys, dir, s2, c2)
            }
        },
        _ => s2 == s0 && c2 == c0,
    }
}

impl WinInfo {
    /// Finishes the numeric sort the window asked for, with `keys` giving
    /// each stored cell of the asked column its order (the viewer computes
    /// them from the cells' numbers).
    pub fn finish_numeric_sort(&mut self, cells: &mut Cells, keys: &Vec<u32>)
        requires
            old(self).wf(),
            old(cells).wf(),
        ensures
            final(self).wf(),
            final(cells).wf(),
            numeric_sort_done(*old(self), *old(cells), keys@, *final(self), *final(cells)),
    {
        let (col, desc, whole) = match self.request {
            Request::NumericSort { col, desc, whole_sheet } => (col, desc, whole_sheet),
            _ => {
                return;
            },
        };
        self.request = Request::Non;
        let dir = if desc {
            crate::sort::Sort::DescNum
        } else {
            crate::sort::Sort::AscNum
        };
        if whole {
            self.sheet_sort_with(cells, col, dir, keys);
        } else {
            self.sort_column_with(cells, dir, keys);
        }
    }
}

} // verus!

verus! {

/// The sheet `f` is `o` with column `k` reverted to its stored order
/// without its padding.
pub open spec fn column_reverted(o: Cells, f: Cells, k: int) -> bool {
    &&& f.columns@.len() == o.columns@.len()
    &&& forall|j: int| 0 <= j < o.columns@.len() && j != k ==> #[trigger] f.columns@[j] == o.columns@[j]
    &&& crate::cells::revert_post(o.columns@[k], f.columns@[k])
    &&& f.columns@[k].wf()
    &&& f == (Cells { columns: f.columns, ..o })
}

/// The sheet `f` is `o` with every column reverted.
pub open spec fn all_reverted(o: Cells, f: Cells) -> bool {
    &&& f.columns@.len() == o.columns@.len()
    &&& forall|j: int| 0 <= j < o.columns@.len() ==> crate::cells::revert_post(o.columns@[j], #[trigger] f.columns@[j])
        && f.columns@[j].wf()
    &&& f == (Cells { columns: f.columns, ..o })
}

/// What `revert_focused_column` does to the window `win0` and the sheet `sheet0`,
/// giving `win1` and `sheet1`.
pub open spec fn revert_focused_column_outcome(win0: WinInfo, sheet0: Cells, win1: WinInfo, sheet1: Cells) -> bool {
    &&& if !sheet0.has_cell(sheet0.w_cell.0, sheet0.w_cell.1) || win0.w_pointer
        >= sheet0.columns@.len() {
        win1.request is Abort
    } else {
        exists|c1: Cells, c2: Cells|
            {
                &&& #[trigger] focus_cleared(sheet0, c1)
                &&& #[trigger] column_reverted(c1, c2, win0.w_pointer as int)
                &&& if !crate::render::can_refocus(c2, win0.w_pointer, win0.h_pointer) {
                    win1.request is Abort
                } else {
                    exists|c3: Cells|
                        {
                            &&& #[trigger] crate::render::refocused(c2, c3, win0.w_pointer, win0.h_pointer)
                            &&& column_redrawn(win0, Cells { written: true, ..c3 }, win1, sheet1)
                        }
                }
            }
    }
}

/// What `goto_row` does to the window `win0` and the sheet `sheet0`,
/// giving `win1` and `sheet1`.
pub open spec fn goto_row_outcome(win0: WinInfo, sheet0: Cells, loc: &str, win1: WinInfo, sheet1: Cells) -> bool {
    &&& match crate::parse::dec_read(loc@) {
        crate::parse::DecOut::Panic => win1.request is Abort,
        crate::parse::DecOut::BadHex(c) => sheet1 == sheet0 && reported(win0, CmdErr::InvalidHex(c), win1),
        crate::parse::DecOut::BadDec => sheet1 == sheet0 && reported(win0, CmdErr::InvalidDec(loc), win1),
        crate::parse::DecOut::Val(i) => if i >= win0.num_rows {
            sheet1 == sheet0 && reported(win0, CmdErr::InvalidIndex(i as usize), win1)
        } else {
            match crate::terminal::moved_h_pointer(win0, i as usize) {
                None => win1.request is Abort,
                Some(s1) => screen_redrawn(s1, sheet0, win1, sheet1),
            }
        },
    }
}

/// What `revert_sheet` does to the window `win0` and the sheet `sheet0`,
/// giving `win1` and `sheet1`.
pub open spec fn revert_sheet_outcome(win0: WinInfo, sheet0: Cells, win1: WinInfo, sheet1: Cells) -> bool {
    &&& if !sheet0.has_cell(sheet0.w_cell.0, sheet0.w_cell.1) {
        win1.request is Abort
    } else {
        exists|c1: Cells, c2: Cells|
            {
                &&& #[trigger] focus_cleared(sheet0, c1)
                &&& #[trigger] all_reverted(c1, c2)
                &&& {
                    let n = c2.columns@[0].shown();
                    if !crate::terminal::small(n as usize) || !crate::render::can_refocus(
                        c2,
                        win0.w_pointer,
                        win0.h_pointer,
                    ) {
                        win1.request is Abort
                    } else {
                        exists|c3: Cells|
                            {
                                &&& #[trigger] crate::render::refocused(c2, c3, win0.w_pointer, win0.h_pointer)
                                &&& screen_redrawn(WinInfo { num_rows: n as usize, ..win0 }, c3, win1, sheet1)
                            }
                    }
                }
            }
    }
}

impl WinInfo {
    /// Puts the focused column's rows back in their stored order, moves the
    /// focus to the pointers and draws that column and those after it.
    pub fn revert_focused_column(&mut self, cells: &mut Cells)
        requires
            old(self).wf(),
            old(cells).wf(),
            !(old(self).request is Abort),
        ensures
            final(self).wf(),
            final(cells).wf(),
            revert_focused_column_outcome(*old(self), *old(cells), *final(self), *final(cells)),
    {
        self.unfocus(cells);
        if self.is_aborted() {
            return;
        }
        let ghost c1 = *cells;
        let wp = self.w_pointer;
        if wp >= cells.columns.len() {
            self.abort("index out of bounds");
            return;
        }
        cells.get_column(wp).revert();
        let ghost c2 = *cells;
        proof {
            assert forall|j: int| 0 <= j < c2.columns@.len() implies (#[trigger] c2.columns@[j]).wf() by {
                if j != wp {
                    assert(c2.columns@[j] == c1.columns@[j]);
                }
            }
        }
        let hp = self.h_pointer;
        self.refocus(cells, wp, hp);
        if self.is_aborted() {
            assert(column_reverted(c1, c2, wp as int));
            return;
        }
        let ghost c3 = *cells;
        cells.written = true;
        self.redraw_from_column(cells);
        assert(focus_cleared(*old(cells), c1));
        assert(column_reverted(c1, c2, wp as int));
        assert(crate::render::refocused(c2, c3, wp, hp));
    }

    /// Puts every column's rows back in their stored order, takes the row
    /// count from the first column, moves the focus to the pointers and draws
    /// the screen again.
    pub fn revert_sheet(&mut self, cells: &mut Cells)
        requires
            old(self).wf(),
            old(cells).wf(),
            !(old(self).request is Abort),
        ensures
            final(self).wf(),
            final(cells).wf(),
            revert_sheet_outcome(*old(self), *old(cells), *final(self), *final(cells)),
    {
        self.unfocus(cells);
        if self.is_aborted() {
            return;
        }
        let ghost c1 = *cells;
        let mut k: usize = 0;
        while k < cells.columns.len()
            invariant
                k <= cells.columns@.len() == c1.columns@.len(),
                c1.wf(),
                forall|j: int| 0 <= j < k ==> crate::cells::revert_post(c1.columns@[j], #[trigger] cells.columns@[j])
                    && cells.columns@[j].wf(),
                forall|j: int| k <= j < cells.columns@.len() ==> #[trigger] cells.columns@[j] == c1.columns@[j],
                *cells == (Cells { columns: cells.columns, ..c1 }),
            decreases cells.columns@.len() - k,
        {
            assert(c1.columns@[k as int].wf());
            cells.get_column(k).revert();
            k += 1;
        }
        let ghost c2 = *cells;
        assert(all_reverted(c1, c2));
        if cells.columns.len() == 0 {
            self.abort("index out of bounds");
            return;
        }
        let n = cells.num_rows();
        if n > usize::MAX / 16 {
            self.abort("capacity overflow");
            return;
        }
        self.num_rows = n;
        let (wp, hp) = (self.w_pointer, self.h_pointer);
        self.refocus(cells, wp, hp);
        if self.is_aborted() {
            return;
        }
        let ghost c3 = *cells;
        self.redraw_screen(cells);
        assert(focus_cleared(*old(cells), c1));
        assert(crate::render::refocused(c2, c3, wp, hp));
    }

    /// Jumps to the row that `loc` gives (decimal, or a quoted row index in
    /// hexadecimal) and draws the screen again.
    pub fn goto_row(&mut self, cells: &mut Cells, loc: &str)
        requires
            old(self).wf(),
            old(cells).wf(),
            !(old(self).request is Abort),
        ensures
            final(self).wf(),
            final(cells).wf(),
            goto_row_outcome(*old(self), *old(cells), loc, *final(self), *final(cells)),
    {
        let i = match crate::parse::str_to_dec(loc) {
            None => {
                self.abort("called `Option::unwrap()` on a `None` value");
                return;
            },
            Some(Err(e)) => {
                self.report(&e);
                return;
            },
            Some(Ok(i)) => i,
        };
        if i >= self.num_rows {
            self.report(&CmdErr::InvalidIndex(i));
            return;
        }
        self.set_h_pointer(i);
        if self.is_aborted() {
            return;
        }
        self.redraw_screen(cells);
    }
}

} // verus!

//! Stepping through the rows of the focused column that hold a value, or
//! whose value another column lacks.
use vstd::prelude::*;

use crate::cells::{Cells, Column};
use crate::cmd_err::CmdErr;
use crate::terminal::{Prompt, WinInfo};

verus! {

/// The shown rows below `n` of `col` whose text contains `v`, in order.
pub open spec fn rows_containing(col: Column, v: Seq<char>, n: int) -> Seq<usize>
    decreases n,
{
    if n <= 0 {
        Seq::empty()
    } else {
        let prev = rows_containing(col, v, n - 1);
        if crate::text::contains_text(col.rows()[n - 1].content, v) {
            prev.push((n - 1) as usize)
        } else {
            prev
        }
    }
}

/// Law: the rows that a search for `v` finds among the first `n` rows of
/// `col` are, in increasing order, exactly the rows whose text contains `v`.
pub proof fn lemma_found_rows(col: Column, v: Seq<char>, n: int)
    requires
        0 <= n <= usize::MAX,
    ensures
        forall|a: int, b: int|
            0 <= a < b < rows_containing(col, v, n).len() ==> #[trigger] rows_containing(col, v, n)[a]
                < #[trigger] rows_containing(col, v, n)[b],
        forall|a: int| 0 <= a < rows_containing(col, v, n).len() ==> #[trigger] rows_containing(col, v, n)[a] < n,
        forall|i: int|
            0 <= i < n ==> (rows_containing(col, v, n).contains(i as usize) <==> crate::text::contains_text(
                #[trigger] col.rows()[i].content,
                v,
            )),
    decreases n,
{
    if n > 0 {
        lemma_found_rows(col, v, n - 1);
        let prev = rows_containing(col, v, n - 1);
        let r = rows_containing(col, v, n);
        assert forall|i: int| 0 <= i < n implies (r.contains(i as usize) <==> crate::text::contains_text(
            #[trigger] col.rows()[i].content,
            v,
        )) by {
            if i < n - 1 {
                if r.contains(i as usize) {
                    let k = choose|k: int| 0 <= k < r.len() && r[k] == i as usize;
                    if k < prev.len() {
                        assert(prev[k] == r[k]);
                    }
                }
                if prev.contains(i as usize) {
                    let k = choose|k: int| 0 <= k < prev.len() && prev[k] == i as usize;
                    assert(r[k] == prev[k]);
                }
            } else {
                if crate::text::contains_text(col.rows()[n - 1].content, v) {
                    assert(r[r.len() - 1] == (n - 1) as usize);
                } else if r.contains(i as usize) {
                    let k = choose|k: int| 0 <= k < r.len() && r[k] == i as usize;
                    assert(r[k] == prev[k]);
                }
            }
        }
    }
}

/// The distance between rows `a` and `b`.
pub open spec fn dist(a: usize, b: usize) -> int {
    if a >= b {
        a - b
    } else {
        b - a
    }
}

/// How many of the rows `rows`, from `i` on, come each closer to row `h`
/// than the one before (the first compared with `d`), plus `i`.
pub open spec fn closer_count(rows: Seq<usize>, h: usize, d: int, i: int) -> int
    decreases rows.len() - i,
{
    if i < 0 || i >= rows.len() {
        i
    } else if dist(h, rows[i]) < d {
        closer_count(rows, h, dist(h, rows[i]), i + 1)
    } else {
        i
    }
}

/// The bottom-line counter of a search at `idx` among `n` rows.
pub open spec fn find_counter(idx: usize, n: nat, mess: Seq<char>) -> Seq<char> {
    crate::text::dec_text((idx + 1) as nat) + "/"@ + crate::text::dec_text(n) + " "@ + mess
}

/// What `draw_col_find` does: focus the row `rows[idx]`, show the sheet,
/// write the counter on the bottom line and send the frame.
pub open spec fn find_drawn(s0: WinInfo, c0: Cells, rows: Seq<usize>, idx: usize, mess: Seq<char>, s3: WinInfo, c3: Cells) -> bool {
    if s0.num_rows == 0 || idx >= rows.len() {
        s3.request is Abort
    } else {
        match crate::terminal::moved_h_pointer(s0, rows[idx as int]) {
            None => s3.request is Abort,
            Some(s1) => exists|s2: WinInfo|
                {
                    &&& #[trigger] crate::render::csv_shown(s1, c0, s2, c3)
                    &&& if s2.request is Abort {
                        s3 == s2
                    } else {
                        exists|m: WinInfo|
                            #[trigger] crate::commands::bottom_set(s2, find_counter(idx, rows.len(), mess), m)
                                && crate::terminal::flushed(m, s3)
                    }
                },
        }
    }
}

impl WinInfo {
    /// Focuses the row `rows[idx]`, shows the sheet and writes `idx + 1`,
    /// the number of rows and `mess` on the bottom line.
    pub fn draw_col_find(&mut self, cells: &mut Cells, idx: usize, rows: &Vec<usize>, mess: &str)
        requires
            old(self).wf(),
            old(cells).wf(),
            !(old(self).request is Abort),
        ensures
            final(self).wf(),
            final(cells).wf(),
            find_drawn(*old(self), *old(cells), rows@, idx, mess@, *final(self), *final(cells)),
    {
        if self.num_rows == 0 || idx >= rows.len() {
            self.abort("index out of bounds");
            return;
        }
        self.set_h_pointer(rows[idx]);
        if self.is_aborted() {
            return;
        }
        let ghost s1 = *self;
        self.show_csv(cells);
        let ghost s2 = *self;
        if self.is_aborted() {
            return;
        }
        let mut t = String::new();
        crate::text::push_dec(&mut t, idx + 1);
        crate::text::push_text(&mut t, "/");
        crate::text::push_dec(&mut t, rows.len());
        crate::text::push_text(&mut t, " ");
        crate::text::push_text(&mut t, mess);
        assert(t@ =~= find_counter(idx, rows@.len(), mess@));
        self.push_bottom(t.as_str());
        let ghost m = *self;
        self.flush();
        assert(crate::commands::bottom_set(s2, find_counter(idx, rows@.len(), mess@), m));
    }
}

/// The shown rows of `col` whose text contains `v`.
pub fn find_rows(col: &Column, v: &str) -> (r: Vec<usize>)
    requires
        col.wf(),
    ensures
        r@ == rows_containing(*col, v@, col.shown() as int),
{
    let n = col.len();
    let pv = crate::text::to_chars(v);
    let mut r: Vec<usize> = Vec::new();
    let mut i: usize = 0;
    while i < n
        invariant
            i <= n,
            n == col.shown(),
            col.wf(),
            pv@ == v@,
            r@ == rows_containing(*col, v@, i as int),
        decreases n - i,
    {
        let cv = crate::text::to_chars(col.view_cell(i));
        if crate::text::contains_chars(&cv, &pv) {
            r.push(i);
        }
        i += 1;
    }
    r
}

/// Where a search over `rows` starts: the last of the leading rows that come
/// each closer to row `h` (the first compared with `d`); `None` when even the
/// first is not closer than `d`.
pub fn closest_start(rows: &Vec<usize>, h: usize, d: usize) -> (r: Option<usize>)
    ensures
        r is None <==> closer_count(rows@, h, d as int, 0) == 0,
        r matches Some(x) ==> x + 1 == closer_count(rows@, h, d as int, 0),
{
    let mut diff = d;
    let mut i: usize = 0;
    while i < rows.len()
        invariant
            i <= rows@.len(),
            closer_count(rows@, h, d as int, 0) == closer_count(rows@, h, diff as int, i as int),
        ensures
            closer_count(rows@, h, d as int, 0) == i,
        decreases rows@.len() - i,
    {
        let x = rows[i];
        let cur = if h >= x {
            h - x
        } else {
            x - h
        };
        if cur < diff {
            diff = cur;
            i += 1;
        } else {
            break;
        }
    }
    if i == 0 {
        None
    } else {
        Some(i - 1)
    }
}

/// What `find_value_in_col` does to the window `win0` and the sheet `sheet0`,
/// giving `win1` and `sheet1`.
pub open spec fn find_value_in_col_outcome(win0: WinInfo, sheet0: Cells, val: &str, win1: WinInfo, sheet1: Cells) -> bool {
    &&& ({
        let wp = win0.w_pointer as int;
        let v = crate::parse::trimmed(val@);
        if val@.len() == 0 || wp >= sheet0.columns@.len() {
            win1.request is Abort
        } else {
            let col = sheet0.columns@[wp];
            let rows = rows_containing(col, v, col.shown() as int);
            if rows.len() == 0 {
                sheet1 == sheet0 && if wp >= sheet0.header@.len() {
                    win1.request is Abort
                } else {
                    crate::commands::bottom_set(
                        win0,
                        "No instance of '"@ + v + "' in '"@ + sheet0.header@[wp].content@ + "'"@,
                        win1,
                    )
                }
            } else {
                let k = closer_count(rows, win0.h_pointer, col.shown() as int, 0);
                if k == 0 {
                    win1.request is Abort
                } else {
                    find_started(win0, sheet0, rows, (k - 1) as usize, Seq::empty(), false, win1, sheet1)
                }
            }
        }
    })
}

impl WinInfo {
    /// Finds the shown rows of the focused column that contain `val`
    /// (without its quotes); when there are some, focuses the closest one
    /// and waits for `n` (next), `b` (back) or another key (done).
    pub fn find_value_in_col(&mut self, cells: &mut Cells, val: &str)
        requires
            old(self).wf(),
            old(cells).wf(),
            !(old(self).request is Abort),
        ensures
            final(self).wf(),
            final(cells).wf(),
            find_value_in_col_outcome(*old(self), *old(cells), val, *final(self), *final(cells)),
    {
        let t = match self.trim_or_stop(val) {
            Some(t) => t,
            None => {
                return;
            },
        };
        let wp = self.w_pointer;
        if wp >= cells.columns.len() {
            self.abort("index out of bounds");
            return;
        }
        let rows = find_rows(&cells.columns[wp], t.as_str());
        if rows.len() == 0 {
            if wp >= cells.header.len() {
                self.abort("index out of bounds");
                return;
            }
            let mut m = String::new();
            crate::text::push_text(&mut m, "No instance of '");
            crate::text::push_text(&mut m, t.as_str());
            crate::text::push_text(&mut m, "' in '");
            crate::text::push_text(&mut m, cells.header[wp].content.as_str());
            crate::text::push_text(&mut m, "'");
            self.push_bottom(m.as_str());
            return;
        }
        let start = match closest_start(&rows, self.h_pointer, cells.columns[wp].len()) {
            None => {
                self.abort("attempt to subtract with overflow");
                return;
            },
            Some(s) => s,
        };
        self.start_find(cells, rows, start, String::new(), false);
    }

    /// Hides the cursor, draws the search at `idx` and waits for the next key.
    pub fn start_find(&mut self, cells: &mut Cells, rows: Vec<usize>, idx: usize, mess: String, diff: bool)
        requires
            old(self).wf(),
            old(cells).wf(),
            !(old(self).request is Abort),
        ensures
            final(self).wf(),
            final(cells).wf(),
            find_started(*old(self), *old(cells), rows@, idx, mess@, diff, *final(self), *final(cells)),
    {
        proof {
            reveal_strlit("\x1b[?25l");
        }
        crate::text::push_text(&mut self.frame, "\x1b[?25l");
        let ghost s1 = *self;
        self.draw_col_find(cells, idx, &rows, mess.as_str());
        let ghost s2 = *self;
        if !self.is_aborted() {
            self.prompt = Prompt::Find { rows, idx, mess, diff };
        }
        assert(find_drawn(s1, *old(cells), rows@, idx, mess@, s2, *cells));
        assert(s1.frame@ == old(self).frame@ + "\x1b[?25l"@);
    }
}

/// What `start_find` does: hide the cursor, draw the search at `idx` (see
/// `find_drawn`) and, unless the step stopped, wait for the next key.
pub open spec fn find_started(s0: WinInfo, c0: Cells, rows: Seq<usize>, idx: usize, mess: Seq<char>, diff: bool, s3: WinInfo, c3: Cells) -> bool {
    exists|s1: WinInfo, s2: WinInfo|
        {
            &&& s1.frame@ == s0.frame@ + "\x1b[?25l"@
            &&& s1 == (WinInfo { frame: s1.frame, ..s0 })
            &&& #[trigger] find_drawn(s1, c0, rows, idx, mess, s2, c3)
            &&& if s2.request is Abort {
                s3 == s2
            } else {
                &&& s3 == (WinInfo { prompt: s3.prompt, ..s2 })
                &&& (s3.prompt matches Prompt::Find { rows: r, idx: i, mess: m, diff: d } && r@ == rows && i == idx
                    && m@ == mess && d == diff)
            }
        }
}

/// Whether some stored cell of `col` has the text `v`.
pub open spec fn has_value(col: Column, v: Seq<char>) -> bool {
    exists|k: int| 0 <= k < col.cells@.len() && (#[trigger] col.cells@[k]).content@ == v
}

/// Whether row `i` of `col` holds the first occurrence of its text.
pub open spec fn first_of_text(col: Column, i: int) -> bool {
    forall|j: int| 0 <= j < i ==> (#[trigger] col.rows()[j]).content != col.rows()[i].content
}

/// The shown rows below `n` of `cur` that hold the first occurrence of a
/// text that no stored cell of `other` has, in order.
pub open spec fn diff_rows(cur: Column, other: Column, n: int) -> Seq<usize>
    decreases n,
{
    if n <= 0 {
        Seq::empty()
    } else {
        let prev = diff_rows(cur, other, n - 1);
        if first_of_text(cur, n - 1) && !has_value(other, cur.rows()[n - 1].content) {
            prev.push((n - 1) as usize)
        } else {
            prev
        }
    }
}

/// Whether some stored cell of `col` has the text `v`.
fn has_value_exec(col: &Column, v: &str) -> (r: bool)
    ensures
        r == has_value(*col, v@),
{
    let mut k: usize = 0;
    while k < col.cells.len()
        invariant
            k <= col.cells@.len(),
            forall|j: int| 0 <= j < k ==> (#[trigger] col.cells@[j]).content@ != v@,
        decreases col.cells@.len() - k,
    {
        if crate::text::same_text(col.cells[k].content.as_str(), v) {
            return true;
        }
        k += 1;
    }
    false
}

/// Whether row `i` of `col` holds the first occurrence of its text.
fn first_of_text_exec(col: &Column, i: usize) -> (r: bool)
    requires
        col.wf(),
        i < col.indices@.len(),
    ensures
        r == first_of_text(*col, i as int),
{
    let v = col.view_cell(i);
    let mut j: usize = 0;
    while j < i
        invariant
            j <= i,
            i < col.indices@.len(),
            col.wf(),
            v@ == col.rows()[i as int].content,
            forall|q: int| 0 <= q < j ==> (#[trigger] col.rows()[q]).content != col.rows()[i as int].content,
        decreases i - j,
    {
        if crate::text::same_text(col.view_cell(j), v) {
            return false;
        }
        j += 1;
    }
    true
}

/// The shown rows of `cur` with the first occurrence of a text that no
/// stored cell of `other` has.
pub fn find_diff_rows(cur: &Column, other: &Column) -> (r: Vec<usize>)
    requires
        cur.wf(),
    ensures
        r@ == diff_rows(*cur, *other, cur.shown() as int),
{
    let n = cur.len();
    let mut r: Vec<usize> = Vec::new();
    let mut i: usize = 0;
    while i < n
        invariant
            i <= n,
            n == cur.shown(),
            cur.wf(),
            r@ == diff_rows(*cur, *other, i as int),
        decreases n - i,
    {
        if first_of_text_exec(cur, i) && !has_value_exec(other, cur.view_cell(i)) {
            r.push(i);
        }
        i += 1;
    }
    r
}

/// What `col_diff` does to the window `win0` and the sheet `sheet0`,
/// giving `win1` and `sheet1`.
pub open spec fn col_diff_outcome(win0: WinInfo, sheet0: Cells, other: &str, win1: WinInfo, sheet1: Cells) -> bool {
    &&& match crate::commands::lookup_outcome(sheet0, other@) {
        None => win1.request is Abort,
        Some(None) => win1.request is Abort && sheet1 == sheet0 && exists|s1: WinInfo|
            #[trigger] crate::commands::reported(win0, crate::commands::lookup_error(other), s1)
                && win1 == (WinInfo { request: win1.request, ..s1 }),
        Some(Some(k)) => {
            let wp = win0.w_pointer as int;
            if k >= sheet0.columns@.len() || wp >= sheet0.columns@.len() {
                win1.request is Abort
            } else {
                let cur = sheet0.columns@[wp];
                find_started(
                    win0,
                    sheet0,
                    diff_rows(cur, sheet0.columns@[k], cur.shown() as int),
                    0,
                    "values not in "@ + other@,
                    true,
                    win1,
                    sheet1,
                )
            }
        },
    }
}

/// What `answer_find` does to the window `win0` and the sheet `sheet0`,
/// giving `win1` and `sheet1`.
pub open spec fn answer_find_outcome(win0: WinInfo, sheet0: Cells, key: u8, win1: WinInfo, sheet1: Cells) -> bool {
    &&& ({
        let (rows, idx, mess, diff) = match win0.prompt {
            Prompt::Find { rows, idx, mess, diff } => (rows@, idx, mess@, diff),
            _ => (Seq::empty(), 0usize, Seq::empty(), false),
        };
        let s0 = WinInfo { prompt: Prompt::Non, ..win0 };
        if key == 110u8 || key == 98u8 {
            if rows.len() == 0 {
                win1.request is Abort
            } else {
                let next = if key == 110u8 {
                    ((idx + 1) % (rows.len() as int)) as usize
                } else if idx == 0 {
                    (rows.len() - 1) as usize
                } else {
                    (idx - 1) as usize
                };
                idx + 1 <= usize::MAX ==> find_started(s0, sheet0, rows, next, mess, diff, win1, sheet1)
            }
        } else {
            sheet1 == sheet0 && exists|m: WinInfo|
                #[trigger] crate::terminal::bottom_drawn(s0, m) && crate::terminal::flushed(m, win1)
        }
    })
}

impl WinInfo {
    /// Finds the shown rows of the focused column whose value (first
    /// occurrence) no cell of the column `other` has, focuses the first and
    /// waits for `n`, `b` or another key.
    pub fn col_diff(&mut self, cells: &mut Cells, other: &str)
        requires
            old(self).wf(),
            old(cells).wf(),
            !(old(self).request is Abort),
        ensures
            final(self).wf(),
            final(cells).wf(),
            col_diff_outcome(*old(self), *old(cells), other, *final(self), *final(cells)),
    {
        let k = match self.lookup_column(cells, other) {
            Some(k) => k,
            None => {
                if !self.is_aborted() {
                    let ghost s1 = *self;
                    self.abort("called `Result::unwrap()` on an `Err` value");
                    assert(crate::commands::reported(*old(self), crate::commands::lookup_error(other), s1));
                }
                return;
            },
        };
        let wp = self.w_pointer;
        if k >= cells.columns.len() || wp >= cells.columns.len() {
            self.abort("index out of bounds");
            return;
        }
        let rows = find_diff_rows(&cells.columns[wp], &cells.columns[k]);
        let mut mess = String::new();
        crate::text::push_text(&mut mess, "values not in ");
        crate::text::push_text(&mut mess, other);
        assert(mess@ =~= "values not in "@ + other@);
        self.start_find(cells, rows, 0, mess, true);
    }

    /// The answer to a running search: `n` goes to the next row, `b` to the
    /// one before (both wrapping around), any other key ends the search with
    /// the focused cell's text on the bottom line.
    pub fn answer_find(&mut self, cells: &mut Cells, key: u8)
        requires
            old(self).wf(),
            old(cells).wf(),
            !(old(self).request is Abort),
            old(self).prompt is Find,
        ensures
            final(self).wf(),
            final(cells).wf(),
            answer_find_outcome(*old(self), *old(cells), key, *final(self), *final(cells)),
    {
        let mut p = Prompt::Non;
        std::mem::swap(&mut p, &mut self.prompt);
        let (rows, idx, mess, diff) = match p {
            Prompt::Find { rows, idx, mess, diff } => (rows, idx, mess, diff),
            _ => (Vec::new(), 0usize, String::new(), false),
        };
        let ghost s0 = *self;
        if key == 110u8 || key == 98u8 {
            let n = rows.len();
            if n == 0 {
                self.abort("attempt to calculate the remainder with a divisor of zero");
                return;
            }
            let next = if key == 110u8 {
                if idx == usize::MAX {
                    self.abort("attempt to add with overflow");
                    return;
                }
                (idx + 1) % n
            } else if idx == 0 {
                n - 1
            } else {
                idx - 1
            };
            self.start_find(cells, rows, next, mess, diff);
        } else {
            self.draw_focused_content();
            let ghost m = *self;
            self.flush();
            assert(crate::terminal::bottom_drawn(s0, m));
        }
    }
}

} // verus!

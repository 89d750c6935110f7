//! Sheet commands that cut a slice out of the shown sheet into a new one, or
//! splice another open sheet into it.
use vstd::prelude::*;

use crate::cells::{Cell, Cells, Column, Context, Csvs};
use crate::cmd_err::CmdErr;
use crate::terminal::{WinChange, WinInfo};

verus! {

/// The parts of a file name split on `.` (outside quotes).
pub open spec fn name_parts(f: Seq<char>) -> Seq<Seq<char>> {
    Seq::new(crate::parse::token_ranges(f, '.').len(), |k: int| crate::parse::token_text(f, '.', k))
}

/// The texts `t` joined with `.` between them.
pub open spec fn join_dots(t: Seq<Seq<char>>) -> Seq<char>
    decreases t.len(),
{
    if t.len() == 0 {
        Seq::empty()
    } else if t.len() == 1 {
        t[0]
    } else {
        join_dots(t.drop_last()) + "."@ + t.last()
    }
}

/// The name of slice `n` of the file `f`: `_n` added to the part before the
/// first dot.
pub open spec fn slice_name(f: Seq<char>, n: nat) -> Seq<char> {
    let t = name_parts(f);
    join_dots(t.update(0, t[0] + "_"@ + crate::text::dec_text(n)))
}

/// The name of slice `n` of the file `filename`; `None` where the split on
/// dots cuts inside a character.
pub fn make_slice_name(filename: &str, n: usize) -> (r: Option<String>)
    ensures
        crate::parse::tokens_ok(filename@, '.') ==> (r matches Some(s) && s@ == slice_name(filename@, n as nat)),
        !crate::parse::tokens_ok(filename@, '.') ==> r is None,
{
    let parts = match crate::parse::tokenize(filename, '.') {
        Some(p) => p,
        None => {
            return None;
        },
    };
    let ghost t = name_parts(filename@);
    proof {
        assert(parts@.len() >= 1);
        assert forall|k: int| 0 <= k < parts@.len() implies t[k] == (#[trigger] parts@[k])@ by {}
    }
    let mut s = String::new();
    crate::text::push_text(&mut s, parts[0]);
    crate::text::push_text(&mut s, "_");
    crate::text::push_dec(&mut s, n);
    let ghost u = t.update(0, t[0] + "_"@ + crate::text::dec_text(n as nat));
    assert(s@ =~= join_dots(u.take(1)));
    let mut k: usize = 1;
    while k < parts.len()
        invariant
            1 <= k <= parts@.len(),
            u.len() == parts@.len(),
            forall|q: int| 1 <= q < u.len() ==> u[q] == (#[trigger] parts@[q])@,
            s@ == join_dots(u.take(k as int)),
        decreases parts@.len() - k,
    {
        crate::text::push_text(&mut s, ".");
        crate::text::push_text(&mut s, parts[k]);
        proof {
            assert(u.take(k + 1).drop_last() =~= u.take(k as int));
            assert(u.take(k + 1).last() == parts@[k as int]@);
        }
        k += 1;
    }
    assert(u.take(k as int) =~= u);
    Some(s)
}

/// What `print_context` does with the sheets `k` on the window `s0`.
pub open spec fn context_printed(s0: WinInfo, k: Csvs, s1: WinInfo) -> bool {
    match crate::render::tabs_text(k.contexts@, k.handle as int, 0, 0, s0.width as int) {
        Some(r) => {
            &&& s1.frame@ == s0.frame@ + crate::terminal::line_start_text(
                crate::cells::sat_sub(s0.height, 1) as nat,
            ) + "\x1b[30;47m"@ + r.0 + crate::text::spaces(crate::cells::sat_sub(s0.width, r.1 as usize) as nat)
                + "\x1b[39;49m"@
            &&& s1 == (WinInfo { frame: s1.frame, ..s0 })
        },
        None => s1.request is Abort,
    }
}

/// The sheets `k1` are `k0` with the sheet `c` added as a new context and
/// shown.
pub open spec fn sheet_added(k0: Csvs, c: Cells, k1: Csvs) -> bool {
    let n = k0.contexts@.len();
    &&& k1.contexts@ == k0.contexts@.push(
        Context { id: n as usize, cells: c, w_pointer: 0, h_pointer: 0, w_offset: 0, h_offset: 0 },
    )
    &&& k1.handle == n
}

/// The sheets `k1` are `k0` with the shown sheet replaced by `c`.
pub open spec fn shown_sheet_set(k0: Csvs, c: Cells, k1: Csvs) -> bool {
    &&& k1.handle == k0.handle
    &&& k1.contexts@ == k0.contexts@.update(k0.handle as int, Context { cells: c, ..k0.contexts@[k0.handle as int] })
}

/// What `open_sheet` does: the new sheet `c` is added and shown, the window
/// takes its size at the top left, the tab line is written and the sheet is
/// drawn.
pub open spec fn sheet_opened(s0: WinInfo, k0: Csvs, c: Cells, s3: WinInfo, k3: Csvs) -> bool {
    let nr = c.columns@[0].shown();
    if !crate::terminal::small(c.columns@.len() as usize) || !crate::terminal::small(nr as usize) || k0.contexts@.len()
        >= usize::MAX {
        s3.request is Abort
    } else {
        exists|k1: Csvs, s2: WinInfo|
            {
                &&& #[trigger] sheet_added(k0, c, k1)
                &&& #[trigger] context_printed(
                    WinInfo {
                        num_cols: c.columns@.len() as usize,
                        num_rows: nr as usize,
                        w_pointer: 0,
                        h_pointer: 0,
                        w_offset: 0,
                        h_offset: 0,
                        ..s0
                    },
                    k1,
                    s2,
                )
                &&& if s2.request is Abort {
                    s3 == s2 && k3.contexts@ == k1.contexts@ && k3.handle == k1.handle
                } else {
                    exists|c3: Cells|
                        #[trigger] crate::render::csv_shown(WinInfo { changed: WinChange::Screen, ..s2 }, c, s3, c3)
                            && shown_sheet_set(k1, c3, k3)
                }
            }
    }
}

impl WinInfo {
    /// Adds the sheet `c` as a new context, shows it from its top left
    /// corner, writes the tab line and draws the sheet.
    pub fn open_sheet(&mut self, csvs: &mut Csvs, c: Cells)
        requires
            old(self).wf(),
            c.wf(),
            c.columns@.len() > 0,
            !(old(self).request is Abort),
        ensures
            final(self).wf(),
            sheet_opened(*old(self), *old(csvs), c, *final(self), *final(csvs)),
    {
        let nc = c.columns.len();
        let nr = c.columns[0].len();
        let n = csvs.num_contexts();
        if nc > usize::MAX / 16 || nr > usize::MAX / 16 || n == usize::MAX {
            self.abort("capacity overflow");
            return;
        }
        let ghost cc = c;
        csvs.push_context(Context::new(n, c));
        csvs.set_handle(n);
        let ghost k1 = *csvs;
        assert(sheet_added(*old(csvs), cc, k1));
        self.set_context(csvs.get_context());
        assert(csvs.contexts@ =~= k1.contexts@);
        let ghost s1 = *self;
        self.print_context(csvs);
        let ghost s2 = *self;
        if self.is_aborted() {
            assert(context_printed(s1, k1, s2));
            return;
        }
        self.changed = WinChange::Screen;
        let cells = csvs.get_cells();
        self.show_csv(cells);
        let ghost c3 = *cells;
        assert(context_printed(s1, k1, s2));
        assert(shown_sheet_set(k1, c3, *csvs));
    }
}

/// A column range as `slice_cols` reads it: like `col_range`, but an empty
/// first part is the column `A`, the second part after `+` is the name of the
/// column that many columns on (looked up as written, without quotes), and
/// `_` or an empty second part after `-` give the focused (`wp`) or last
/// (`nc - 1`) column.
pub open spec fn slice_range(c: Cells, r: Seq<char>, wp: usize, nc: usize) -> crate::col_ops::ColRead {
    match crate::row_ops::range_tokens(r) {
        None => crate::col_ops::ColRead::Panic,
        Some((toks, d)) => {
            let first = if toks[0].len() == 0 {
                "A"@
            } else {
                toks[0]
            };
            match crate::col_ops::col_ref_read(c, first) {
                crate::col_ops::ColRead::Cols(a, _) => if toks.len() < 2 {
                    crate::col_ops::ColRead::Cols(a, a)
                } else {
                    let second: Result<Seq<char>, crate::col_ops::ColRead> = match d {
                        Some(ch) => if ch == '-' {
                            Ok(toks[1])
                        } else if ch == '+' {
                            match crate::parse::dec_read(toks[1]) {
                                crate::parse::DecOut::Val(v) => if a + v > usize::MAX {
                                    Err(crate::col_ops::ColRead::Panic)
                                } else if a + v >= c.header@.len() {
                                    Err(crate::col_ops::ColRead::TooFar(a + v))
                                } else {
                                    Ok(c.header@[(a + v) as int].content@)
                                },
                                crate::parse::DecOut::Panic => Err(crate::col_ops::ColRead::Panic),
                                e => Err(crate::col_ops::ColRead::BadNum(e, toks[1])),
                            }
                        } else {
                            Ok(toks[0])
                        },
                        None => Ok(toks[0]),
                    };
                    match second {
                        Ok(t) => if t.len() == 0 {
                            if nc == 0 {
                                crate::col_ops::ColRead::Panic
                            } else {
                                crate::col_ops::ColRead::Cols(a, (nc - 1) as nat)
                            }
                        } else if t == "_"@ {
                            crate::col_ops::ColRead::Cols(a, wp as nat)
                        } else {
                            match crate::col_ops::col_ref_read(c, t) {
                                crate::col_ops::ColRead::Cols(b, _) => crate::col_ops::ColRead::Cols(a, b),
                                e => e,
                            }
                        },
                        Err(e) => e,
                    }
                },
                e => e,
            }
        },
    }
}

/// The column ids `ids` with the last taken off `n` times (as far as any
/// are left).
pub open spec fn ids_popped_n(ids: Seq<Cell>, n: nat) -> Seq<Cell> {
    if ids.len() >= n {
        ids.take(ids.len() - n)
    } else {
        Seq::empty()
    }
}

/// The column `f` holds the shown rows of `o` in order, without padding.
pub open spec fn reindexed(o: Column, f: Column) -> bool {
    &&& f.wf()
    &&& crate::cells::cells_model(f.cells@) == o.rows().take(o.shown() as int)
    &&& f.indices@ == crate::cells::identity(o.shown())
    &&& f.padding == 0
    &&& f.start == o.start
    &&& f.width == o.width
}

/// The sheets after `slice_cols` cut the columns `a..=b` out of the shown
/// sheet `c1` (focus already cleared) into a new sheet and showed it.
pub open spec fn cols_sliced(s0: WinInfo, k0: Csvs, c1: Cells, a: nat, b: nat, s3: WinInfo, k3: Csvs) -> bool {
    let n = (b - a + 1) as nat;
    if c1.slices + 1 > usize::MAX || !crate::parse::tokens_ok(c1.filename@, '.') || b < a || b - a + 1 > u32::MAX
        || b >= c1.columns@.len() || b >= c1.header@.len() || ids_popped_n(c1.col_ids@, n).len() > c1.header@.len()
        - n {
        s3.request is Abort
    } else {
        exists|c2: Cells, nc: Cells, k1: Csvs|
            {
                &&& c2.columns@ == c1.columns@.take(a as int) + c1.columns@.skip((b + 1) as int)
                &&& c2.header@ == c1.header@.take(a as int) + c1.header@.skip((b + 1) as int)
                &&& crate::col_ops::ids_aligned(ids_popped_n(c1.col_ids@, n), c2.col_ids@, c2.header@, a as int)
                &&& c2 == (Cells {
                    columns: c2.columns,
                    header: c2.header,
                    col_ids: c2.col_ids,
                    slices: (c1.slices + 1) as usize,
                    written: true,
                    ..c1
                })
                &&& nc.filename@ == slice_name(c1.filename@, (c1.slices + 1) as nat)
                &&& nc.delim == c1.delim
                &&& nc.header@ == c1.header@.subrange(a as int, (b + 1) as int)
                &&& nc.col_ids@.len() == n
                &&& forall|i: int|
                    0 <= i < n ==> crate::cells::cell_model(#[trigger] nc.col_ids@[i]) == crate::cells::new_cell_model(
                        crate::csv_io::base26(i as nat),
                    )
                &&& nc.columns@.len() == n
                &&& forall|i: int| 0 <= i < n ==> reindexed(c1.columns@[a + i], #[trigger] nc.columns@[i])
                &&& nc.w_cell == (0usize, 0usize) && !nc.changed && nc.written && nc.slices == 0
                &&& #[trigger] shown_sheet_set(k0, c2, k1)
                &&& #[trigger] sheet_opened(s0, k1, nc, s3, k3)
            }
    }
}

/// What `slice_cols` does, from the window `win0` to `win1`.
pub open spec fn slice_cols_outcome(win0: WinInfo, range: &str, ks0: Csvs, win1: WinInfo, ks1: Csvs) -> bool {
    &&& ({
        let c0 = ks0.contexts@[ks0.handle as int].cells;
        if !c0.has_cell(c0.w_cell.0, c0.w_cell.1) {
            win1.request is Abort
        } else {
            exists|c1: Cells|
                {
                    &&& #[trigger] crate::commands::focus_cleared(c0, c1)
                    &&& match slice_range(c0, range@, win0.w_pointer, win0.num_cols) {
                        crate::col_ops::ColRead::Cols(a, b) => cols_sliced(win0, ks0, c1, a, b, win1, ks1),
                        r => shown_sheet_set(ks0, c1, ks1) && crate::col_ops::col_read_failed(
                            r,
                            win0,
                            win1,
                        ),
                    }
                }
        }
    })
}

impl WinInfo {
    /// Cuts the columns of `range` (see `slice_range`) out of the shown sheet
    /// into a new sheet named after the file, and shows the new sheet.
    #[verifier::rlimit(100)]
    #[verifier::loop_isolation(false)]
    pub fn slice_cols(&mut self, range: &str, csvs: &mut Csvs)
        requires
            old(self).wf(),
            !(old(self).request is Abort),
            old(csvs).handle < old(csvs).contexts@.len(),
            old(csvs).contexts@[old(csvs).handle as int].cells.wf(),
        ensures
            final(self).wf(),
            slice_cols_outcome(*old(self), range, *old(csvs), *final(self), *final(csvs)),
    {
        let ghost k0 = *csvs;
        let ghost c0 = k0.contexts@[k0.handle as int].cells;
        let cells = csvs.get_cells();
        self.unfocus(cells);
        if self.is_aborted() {
            return;
        }
        let ghost c1 = *cells;
        assert(crate::commands::focus_cleared(c0, c1));
        let (toks, delim) = match crate::parse::tokenize_range(range) {
            Some(x) => x,
            None => {
                self.abort("byte index is not a char boundary");
                return;
            },
        };
        proof {
            match crate::parse::range_delim(range@) {
                Some((_, ch)) => {
                    assert(toks@.len() >= 1);
                },
                None => {},
            }
            let rt = crate::row_ops::range_tokens(range@)->0;
            assert(rt.0.len() == toks@.len());
            assert forall|k: int| 0 <= k < toks@.len() implies rt.0[k] == (#[trigger] toks@[k])@ by {}
            assert(rt.1 == delim);
            reveal_strlit("A");
            reveal_strlit("_");
        }
        let first = if toks[0].unicode_len() == 0 {
            "A"
        } else {
            toks[0]
        };
        let ida = match self.lookup_column(cells, first) {
            Some(k) => k,
            None => {
                return;
            },
        };
        let idb = if toks.len() < 2 {
            ida
        } else {
            let t1 = toks[1];
            let second: String = match delim {
                Some(ch) => {
                    if ch == '-' {
                        crate::text::text_of(t1)
                    } else if ch == '+' {
                        let v = match crate::parse::str_to_dec(t1) {
                            None => {
                                self.abort("called `Option::unwrap()` on a `None` value");
                                return;
                            },
                            Some(Err(e)) => {
                                self.report(&e);
                                return;
                            },
                            Some(Ok(v)) => v,
                        };
                        if ida > usize::MAX - v {
                            self.abort("attempt to add with overflow");
                            return;
                        }
                        let num = ida + v;
                        if num >= cells.header.len() {
                            self.report(&CmdErr::InvalidIndex(num));
                            return;
                        }
                        crate::text::text_of(cells.header[num].content.as_str())
                    } else {
                        crate::text::text_of(toks[0])
                    }
                },
                None => crate::text::text_of(toks[0]),
            };
            let st = second.as_str();
            if st.unicode_len() == 0 {
                if self.num_cols == 0 {
                    self.abort("attempt to subtract with overflow");
                    return;
                }
                self.num_cols - 1
            } else if crate::text::same_text(st, "_") {
                self.w_pointer
            } else {
                match self.lookup_column(cells, st) {
                    Some(k) => k,
                    None => {
                        return;
                    },
                }
            }
        };
        assert(slice_range(c0, range@, old(self).w_pointer, old(self).num_cols) == crate::col_ops::ColRead::Cols(
            ida as nat,
            idb as nat,
        ));
        let ghost kc = *csvs;
        self.finish_slice_cols(csvs, ida, idb);
        proof {
            let n = (idb - ida + 1) as nat;
            if !(c1.slices + 1 > usize::MAX || !crate::parse::tokens_ok(c1.filename@, '.') || idb < ida || idb - ida + 1
                > u32::MAX || idb >= c1.columns@.len() || idb >= c1.header@.len() || ids_popped_n(c1.col_ids@, n).len()
                > c1.header@.len() - n) {
                let (c2, nc, k1) = choose|c2: Cells, nc: Cells, k1: Csvs|
                    {
                        &&& c2.columns@ == c1.columns@.take(ida as int) + c1.columns@.skip((idb + 1) as int)
                        &&& c2.header@ == c1.header@.take(ida as int) + c1.header@.skip((idb + 1) as int)
                        &&& crate::col_ops::ids_aligned(ids_popped_n(c1.col_ids@, n), c2.col_ids@, c2.header@, ida as int)
                        &&& c2 == (Cells {
                            columns: c2.columns,
                            header: c2.header,
                            col_ids: c2.col_ids,
                            slices: (c1.slices + 1) as usize,
                            written: true,
                            ..c1
                        })
                        &&& nc.filename@ == slice_name(c1.filename@, (c1.slices + 1) as nat)
                        &&& nc.delim == c1.delim
                        &&& nc.header@ == c1.header@.subrange(ida as int, (idb + 1) as int)
                        &&& nc.col_ids@.len() == n
                        &&& forall|i: int|
                            0 <= i < n ==> crate::cells::cell_model(#[trigger] nc.col_ids@[i]) == crate::cells::new_cell_model(
                                crate::csv_io::base26(i as nat),
                            )
                        &&& nc.columns@.len() == n
                        &&& forall|i: int| 0 <= i < n ==> reindexed(c1.columns@[ida + i], #[trigger] nc.columns@[i])
                        &&& nc.w_cell == (0usize, 0usize) && !nc.changed && nc.written && nc.slices == 0
                        &&& #[trigger] shown_sheet_set(kc, c2, k1)
                        &&& #[trigger] sheet_opened(*old(self), k1, nc, *self, *csvs)
                    };
                lemma_same_but_shown(k0, kc, c2, k1);
            }
            assert(cols_sliced(*old(self), k0, c1, ida as nat, idb as nat, *self, *csvs));
        }
    }

    #[verifier::rlimit(100)]
    #[verifier::loop_isolation(false)]
    fn finish_slice_cols(&mut self, csvs: &mut Csvs, a: usize, b: usize)
        requires
            old(self).wf(),
            !(old(self).request is Abort),
            old(csvs).handle < old(csvs).contexts@.len(),
            old(csvs).contexts@[old(csvs).handle as int].cells.wf(),
        ensures
            final(self).wf(),
            cols_sliced(
                *old(self),
                *old(csvs),
                old(csvs).contexts@[old(csvs).handle as int].cells,
                a as nat,
                b as nat,
                *final(self),
                *final(csvs),
            ),
    {
        let ghost k0 = *csvs;
        let ghost c1 = k0.contexts@[k0.handle as int].cells;
        let cells = csvs.get_cells();
        if cells.slices == usize::MAX {
            self.abort("attempt to add with overflow");
            return;
        }
        let name = match make_slice_name(cells.filename.as_str(), cells.slices + 1) {
            Some(n) => n,
            None => {
                self.abort("byte index is not a char boundary");
                return;
            },
        };
        if b < a || b - a >= 4294967295usize || b >= cells.columns.len() || b >= cells.header.len() {
            self.abort("index out of bounds");
            return;
        }
        let n = b - a + 1;
        let idl = cells.col_ids.len();
        let left = if idl >= n {
            idl - n
        } else {
            0
        };
        if left > cells.header.len() - n {
            self.abort("index out of bounds");
            return;
        }
        cells.slices = cells.slices + 1;
        let ids = crate::csv_io::make_col_ids(n);
        let mut nc = Cells::new(name, cells.delim, Vec::new(), ids, n);
        let mut new_header: Vec<Cell> = Vec::new();
        let ghost cs = *cells;
        let mut i: usize = 0;
        while i < n
            invariant
                i <= n,
                n == b - a + 1,
                cells.columns@ == cs.columns@.take(a as int) + cs.columns@.skip(a + i),
                cells.header@ == cs.header@.take(a as int) + cs.header@.skip(a + i),
                cells.col_ids@ == ids_popped_n(cs.col_ids@, i as nat),
                new_header@ == cs.header@.subrange(a as int, a + i),
                nc.columns@.len() == i,
                forall|q: int| 0 <= q < i ==> reindexed(cs.columns@[a + q], #[trigger] nc.columns@[q]),
                *cells == (Cells { columns: cells.columns, header: cells.header, col_ids: cells.col_ids, ..cs }),
                nc.col_ids@ == ids@,
                nc.filename@ == name@,
                nc.delim == cs.delim,
                nc.w_cell == (0usize, 0usize) && !nc.changed && !nc.written && nc.slices == 0,
                cs.wf(),
            decreases n - i,
        {
            proof {
                assert(cells.columns@[a as int] == cs.columns@[a + i]);
                assert(cells.header@[a as int] == cs.header@[a + i]);
            }
            let mut col = cells.columns.remove(a);
            col.reindex();
            nc.push_column(col);
            let nm = cells.header.remove(a);
            new_header.push(nm);
            let _ = cells.col_ids.pop();
            proof {
                assert(cells.columns@ =~= cs.columns@.take(a as int) + cs.columns@.skip(a + i + 1));
                assert(cells.header@ =~= cs.header@.take(a as int) + cs.header@.skip(a + i + 1));
                assert(cells.col_ids@ =~= ids_popped_n(cs.col_ids@, (i + 1) as nat));
                assert(new_header@ =~= cs.header@.subrange(a as int, a + i + 1));
            }
            i += 1;
        }
        nc.header = new_header;
        cells.align_col_ids(a);
        cells.written = true;
        nc.written = true;
        let ghost c2 = *cells;
        let ghost k1 = *csvs;
        proof {
            assert(c2.wf()) by {
                assert forall|k: int| 0 <= k < c2.columns@.len() implies (#[trigger] c2.columns@[k]).wf() by {
                    if k < a {
                        assert(c2.columns@[k] == c1.columns@[k]);
                    } else {
                        assert(c2.columns@[k] == c1.columns@[k + n]);
                    }
                }
            }
            assert(nc.wf());
        }
        let ghost ncc = nc;
        self.open_sheet(csvs, nc);
        proof {
            assert(shown_sheet_set(k0, c2, k1));
            assert(sheet_opened(*old(self), k1, ncc, *self, *csvs));
        }
    }
}

/// The shown sheet of `kb` replaced in `ka` gives the same sheets as in
/// `kb`, when the two differ only in the shown sheet's cells.
proof fn lemma_same_but_shown(ka: Csvs, kb: Csvs, c2: Cells, k1: Csvs)
    requires
        ka.handle == kb.handle,
        ka.handle < ka.contexts@.len(),
        ka.contexts@.len() == kb.contexts@.len(),
        forall|i: int| 0 <= i < ka.contexts@.len() && i != ka.handle ==> #[trigger] ka.contexts@[i] == kb.contexts@[i],
        ka.contexts@[ka.handle as int] == (Context { cells: ka.contexts@[ka.handle as int].cells, ..kb.contexts@[kb.handle as int] }),
        shown_sheet_set(kb, c2, k1),
    ensures
        shown_sheet_set(ka, c2, k1),
{
    let h = ka.handle as int;
    assert(ka.contexts@.update(h, Context { cells: c2, ..ka.contexts@[h] }) =~= kb.contexts@.update(
        h,
        Context { cells: c2, ..kb.contexts@[h] },
    ));
}

/// The rows left in a sheet of `nr` rows after `slice_rows` took
/// `st..=end` out (one less than taken, as the viewer counts).
pub open spec fn rows_left(nr: usize, st: nat, end: nat) -> usize {
    crate::cells::sat_sub(nr, crate::cells::sat_sub(end as usize, st as usize))
}

/// The sheets after `slice_rows` cut the rows `st..=end` out of the shown
/// sheet `c1` (focus already cleared) into a new sheet and showed it.
pub open spec fn rows_sliced(s0: WinInfo, k0: Csvs, c1: Cells, st: nat, end: nat, s3: WinInfo, k3: Csvs) -> bool {
    let nr = rows_left(s0.num_rows, st, end);
    let adjust = s0.h_pointer > nr - 2;
    if c1.slices + 1 > usize::MAX || !crate::parse::tokens_ok(c1.filename@, '.') || st > end + 1 || c1.columns@.len()
        == 0 || (exists|k: int| 0 <= k < c1.columns@.len() && end >= (#[trigger] c1.columns@[k]).shown()) || nr < 2 {
        s3.request is Abort
    } else {
        exists|c2: Cells, nc: Cells, k1: Csvs|
            #[trigger] rows_sliced_with(s0, k0, c1, st, end, s3, k3, c2, nc, k1)
    }
}

/// The body of `rows_sliced` for the rest of the shown sheet `c2`, the new
/// sheet `nc` and the sheets `k1` before the new one is opened.
pub open spec fn rows_sliced_with(
    s0: WinInfo,
    k0: Csvs,
    c1: Cells,
    st: nat,
    end: nat,
    s3: WinInfo,
    k3: Csvs,
    c2: Cells,
    nc: Cells,
    k1: Csvs,
) -> bool {
    let nr = rows_left(s0.num_rows, st, end);
    let adjust = s0.h_pointer > nr - 2;
    let hp = if adjust {
        (nr - 2) as usize
    } else {
        s0.h_pointer
    };
    let ho = if adjust {
        crate::cells::sat_sub((nr - 1) as usize, s0.h_page)
    } else {
        s0.h_offset
    };
    {
                &&& c2.columns@.len() == c1.columns@.len()
                &&& forall|k: int|
                    0 <= k < c1.columns@.len() ==> {
                        let o = c1.columns@[k];
                        let r = o.rows().take(o.shown() as int);
                        &&& crate::cells::cells_model((#[trigger] c2.columns@[k]).cells@) == r.take(st as int) + r.skip(
                            (end + 1) as int,
                        )
                        &&& c2.columns@[k].indices@ == crate::cells::identity(c2.columns@[k].cells@.len())
                        &&& c2.columns@[k].padding == 0
                        &&& c2.columns@[k].start == o.start
                        &&& c2.columns@[k].width == o.width
                        &&& crate::cells::cells_model(nc.columns@[k].cells@) == r.subrange(st as int, (end + 1) as int)
                        &&& nc.columns@[k].indices@ == crate::cells::identity((end + 1 - st) as nat)
                        &&& nc.columns@[k].padding == 0
                        &&& nc.columns@[k].start == 0
                        &&& nc.columns@[k].width == 12
                    }
                &&& c2 == (Cells {
                    columns: c2.columns,
                    slices: (c1.slices + 1) as usize,
                    written: true,
                    w_cell: if adjust {
                        (s0.w_pointer, hp)
                    } else {
                        c1.w_cell
                    },
                    ..c1
                })
                &&& nc.filename@ == slice_name(c1.filename@, (c1.slices + 1) as nat)
                &&& nc.delim == c1.delim
                &&& crate::cells::cells_model(nc.header@) == crate::cells::cells_model(c1.header@)
                &&& crate::cells::cells_model(nc.col_ids@) == crate::cells::cells_model(c1.col_ids@)
                &&& nc.columns@.len() == c1.columns@.len()
                &&& nc.w_cell == (0usize, 0usize) && !nc.changed && nc.written && nc.slices == 0
                &&& k1.handle == k0.handle
                &&& k1.contexts@ == k0.contexts@.update(
                    k0.handle as int,
                    Context { cells: c2, h_pointer: if adjust {
                        hp
                    } else {
                        k0.contexts@[k0.handle as int].h_pointer
                    }, h_offset: if adjust {
                        ho
                    } else {
                        k0.contexts@[k0.handle as int].h_offset
                    }, ..k0.contexts@[k0.handle as int] },
                )
                &&& sheet_opened(
                    WinInfo { num_rows: nr, h_pointer: hp, h_offset: ho, ..s0 },
                    k1,
                    nc,
                    s3,
                    k3,
                )
                &&& nc.wf()
                &&& c2.wf()
            }
}

/// What `slice_rows` does, from the window `win0` to `win1`.
pub open spec fn slice_rows_outcome(win0: WinInfo, range: &str, ks0: Csvs, win1: WinInfo, ks1: Csvs) -> bool {
    &&& ({
        let c0 = ks0.contexts@[ks0.handle as int].cells;
        match crate::row_ops::row_range(range@, win0.h_pointer, win0.num_rows) {
            crate::row_ops::RangeRead::Panic => win1.request is Abort,
            crate::row_ops::RangeRead::Bad(d, tk) => ks1 == ks0 && exists|e: CmdErr|
                #[trigger] crate::commands::reported(win0, e, win1) && crate::row_ops::read_error(
                    e,
                    d,
                    tk,
                ),
            crate::row_ops::RangeRead::Rows(st, end) => if !c0.has_cell(c0.w_cell.0, c0.w_cell.1) {
                win1.request is Abort
            } else {
                exists|c1: Cells|
                    #[trigger] crate::commands::focus_cleared(c0, c1) && rows_sliced(
                        win0,
                        ks0,
                        c1,
                        st,
                        end,
                        win1,
                        ks1,
                    )
            },
        }
    })
}

impl WinInfo {
    /// Cuts the rows of `range` (see `row_range`) out of every column of the
    /// shown sheet into a new sheet named after the file, and shows the new
    /// sheet.
    #[verifier::rlimit(100)]
    #[verifier::loop_isolation(false)]
    pub fn slice_rows(&mut self, range: &str, csvs: &mut Csvs)
        requires
            old(self).wf(),
            !(old(self).request is Abort),
            old(csvs).handle < old(csvs).contexts@.len(),
            old(csvs).contexts@[old(csvs).handle as int].cells.wf(),
        ensures
            final(self).wf(),
            slice_rows_outcome(*old(self), range, *old(csvs), *final(self), *final(csvs)),
    {
        let (st, end) = match self.parse_row_range(range) {
            None => {
                self.abort("called `Result::unwrap()` on an `Err` value");
                return;
            },
            Some(Err(e)) => {
                self.report(&e);
                return;
            },
            Some(Ok(x)) => x,
        };
        let ghost k0 = *csvs;
        let ghost c0 = k0.contexts@[k0.handle as int].cells;
        let cells = csvs.get_cells();
        self.unfocus(cells);
        if self.is_aborted() {
            return;
        }
        let ghost c1 = *cells;
        assert(crate::commands::focus_cleared(c0, c1));
        if cells.slices == usize::MAX {
            self.abort("attempt to add with overflow");
            return;
        }
        let name = match make_slice_name(cells.filename.as_str(), cells.slices + 1) {
            Some(n) => n,
            None => {
                self.abort("byte index is not a char boundary");
                return;
            },
        };
        let nc_len = cells.columns.len();
        if (end < usize::MAX && st > end + 1) || nc_len == 0 {
            self.abort("slice index starts at a later index than it ends");
            return;
        }
        let ghost sa = *self;
        let mut k: usize = 0;
        while k < nc_len
            invariant
                k <= nc_len,
                nc_len == cells.columns@.len(),
                *self == sa,
                sa.wf(),
                *cells == c1,
                forall|j: int| 0 <= j < k ==> end < (#[trigger] c1.columns@[j]).shown() && c1.columns@[j].shown() <= usize::MAX,
            decreases nc_len - k,
        {
            proof {
                assert(c1.columns@[k as int].wf());
            }
            if end >= cells.columns[k].len() {
                self.abort("range end index out of range for slice");
                return;
            }
            k += 1;
        }
        assert(end < c1.columns@[0].shown());
        let nr = crate::cells::sat_sub_exec(self.num_rows, crate::cells::sat_sub_exec(end, st));
        if nr < 2 {
            self.abort("attempt to subtract with overflow");
            return;
        }
        let adjust = self.h_pointer > nr - 2;
        cells.slices = cells.slices + 1;
        let mut nc = Cells::new(
            name,
            cells.delim,
            Cells::clone_cell_row(&cells.header),
            Cells::clone_cell_row(&cells.col_ids),
            nc_len,
        );
        let ghost cs = *cells;
        proof {
            assert forall|j: int| 0 <= j < nc_len implies end < (#[trigger] cs.columns@[j]).shown() by {
                assert(end < c1.columns@[j].shown());
            }
        }
        cells.drain_rows_into(&mut nc, st, end);
        cells.written = true;
        nc.written = true;
        if adjust {
            self.h_pointer = nr - 2;
            self.h_offset = crate::cells::sat_sub_exec(nr - 1, self.h_page);
            cells.w_cell = (self.w_pointer, self.h_pointer);
        }
        self.num_rows = nr;
        let ghost c2 = *cells;
        if adjust {
            let con = csvs.get_context();
            con.h_pointer = self.h_pointer;
            con.h_offset = self.h_offset;
        }
        let ghost k1 = *csvs;
        proof {
            assert(k1.contexts@ =~= k0.contexts@.update(
                k0.handle as int,
                Context { cells: c2, h_pointer: if adjust {
                    self.h_pointer
                } else {
                    k0.contexts@[k0.handle as int].h_pointer
                }, h_offset: if adjust {
                    self.h_offset
                } else {
                    k0.contexts@[k0.handle as int].h_offset
                }, ..k0.contexts@[k0.handle as int] },
            ));
        }
        let ghost s_mod = *self;
        let ghost ncc = nc;
        assert(c2.wf());
        self.open_sheet(csvs, nc);
        assert(sheet_opened(s_mod, k1, ncc, *self, *csvs));
        assert(ncc.wf());
        proof {
            let adj = adjust;
            assert(s_mod == WinInfo { num_rows: nr, h_pointer: s_mod.h_pointer, h_offset: s_mod.h_offset, ..*old(self) });
            assert forall|k: int| 0 <= k < c1.columns@.len() implies {
                let o = c1.columns@[k];
                let r = o.rows().take(o.shown() as int);
                &&& crate::cells::cells_model((#[trigger] c2.columns@[k]).cells@) == r.take(st as int) + r.skip(
                    (end + 1) as int,
                )
                &&& c2.columns@[k].indices@ == crate::cells::identity(c2.columns@[k].cells@.len())
                &&& c2.columns@[k].padding == 0
                &&& c2.columns@[k].start == o.start
                &&& c2.columns@[k].width == o.width
                &&& crate::cells::cells_model(ncc.columns@[k].cells@) == r.subrange(st as int, (end + 1) as int)
                &&& ncc.columns@[k].indices@ == crate::cells::identity((end + 1 - st) as nat)
                &&& ncc.columns@[k].padding == 0
                &&& ncc.columns@[k].start == 0
                &&& ncc.columns@[k].width == 12
            } by {
                assert(cs.columns@.len() == c1.columns@.len());
                assert(cs.columns@[k] == c1.columns@[k]);
            }
            assert(!(exists|k: int| 0 <= k < c1.columns@.len() && end >= (#[trigger] c1.columns@[k]).shown()));
            let hp = if adj {
                (nr - 2) as usize
            } else {
                old(self).h_pointer
            };
            let ho = if adj {
                crate::cells::sat_sub((nr - 1) as usize, old(self).h_page)
            } else {
                old(self).h_offset
            };
            assert(s_mod == WinInfo { num_rows: nr, h_pointer: hp, h_offset: ho, ..*old(self) });
            assert(sheet_opened(WinInfo { num_rows: nr, h_pointer: hp, h_offset: ho, ..*old(self) }, k1, ncc, *self, *csvs));
            assert(c2 == (Cells {
                    columns: c2.columns,
                    slices: (c1.slices + 1) as usize,
                    written: true,
                    w_cell: if adj {
                        (old(self).w_pointer, hp)
                    } else {
                        c1.w_cell
                    },
                    ..c1
                }));
            assert(ncc.filename@ == slice_name(c1.filename@, (c1.slices + 1) as nat));
            assert(ncc.delim == c1.delim);
            assert(crate::cells::cells_model(ncc.header@) == crate::cells::cells_model(c1.header@));
            assert(crate::cells::cells_model(ncc.col_ids@) == crate::cells::cells_model(c1.col_ids@));
            assert(ncc.columns@.len() == c1.columns@.len());
            assert(ncc.w_cell == (0usize, 0usize) && !ncc.changed && ncc.written && ncc.slices == 0);
            assert(k1.handle == k0.handle);
            assert(rows_sliced_with(*old(self), k0, c1, st as nat, end as nat, *self, *csvs, c2, ncc, k1));
            assert(rows_sliced(*old(self), k0, c1, st as nat, end as nat, *self, *csvs));
        }
    }
}

impl Column {
    /// A column of the cells `cells` in storage order, at the start of the
    /// line, 12 wide and without padding.
    pub fn from_cells(cells: Vec<Cell>) -> (c: Self)
        ensures
            c.wf(),
            c.cells == cells,
            c.indices@ == crate::cells::identity(cells@.len()),
            c.start == 0,
            c.width == 12,
            c.padding == 0,
    {
        let n = cells.len();
        let mut ind: Vec<usize> = Vec::new();
        let mut q: usize = 0;
        while q < n
            invariant
                q <= n,
                ind@ == crate::cells::identity(q as nat),
            decreases n - q,
        {
            ind.push(q);
            q += 1;
            assert(ind@ =~= crate::cells::identity(q as nat));
        }
        Column { cells, start: 0, width: 12, indices: ind, padding: 0 }
    }
}

impl Cells {
    /// Takes the shown rows `st..=end` out of every column (which then holds
    /// its other shown rows in order) and adds them, in order, as a new
    /// column of `nc`.
    #[verifier::rlimit(60)]
    fn drain_rows_into(&mut self, nc: &mut Cells, st: usize, end: usize)
        requires
            old(self).wf(),
            old(nc).columns@.len() == 0,
            st <= end + 1,
            end < usize::MAX,
            forall|j: int| 0 <= j < old(self).columns@.len() ==> end < (#[trigger] old(self).columns@[j]).shown(),
        ensures
            final(self).wf(),
            final(nc).wf(),
            final(self).columns@.len() == old(self).columns@.len(),
            final(nc).columns@.len() == old(self).columns@.len(),
            forall|j: int|
                0 <= j < old(self).columns@.len() ==> {
                    let o = old(self).columns@[j];
                    let r = o.rows().take(o.shown() as int);
                    &&& crate::cells::cells_model((#[trigger] final(self).columns@[j]).cells@) == r.take(st as int)
                        + r.skip(end + 1)
                    &&& final(self).columns@[j].indices@ == crate::cells::identity(final(self).columns@[j].cells@.len())
                    &&& final(self).columns@[j].padding == 0
                    &&& final(self).columns@[j].start == o.start
                    &&& final(self).columns@[j].width == o.width
                    &&& crate::cells::cells_model(final(nc).columns@[j].cells@) == r.subrange(st as int, end + 1)
                    &&& final(nc).columns@[j].indices@ == crate::cells::identity((end + 1 - st) as nat)
                    &&& final(nc).columns@[j].padding == 0
                    &&& final(nc).columns@[j].start == 0
                    &&& final(nc).columns@[j].width == 12
                },
            *final(self) == (Cells { columns: final(self).columns, ..*old(self) }),
            *final(nc) == (Cells { columns: final(nc).columns, ..*old(nc) }),
    {
        let n = self.columns.len();
        let mut k: usize = 0;
        while k < n
            invariant
                k <= n,
                n == self.columns@.len(),
                n == old(self).columns@.len(),
                st <= end + 1,
                end < usize::MAX,
                nc.columns@.len() == k,
                old(self).wf(),
                forall|j: int| 0 <= j < n ==> end < (#[trigger] old(self).columns@[j]).shown(),
                forall|j: int|
                    0 <= j < k ==> {
                        let o = old(self).columns@[j];
                        let r = o.rows().take(o.shown() as int);
                        &&& crate::cells::cells_model((#[trigger] self.columns@[j]).cells@) == r.take(st as int)
                            + r.skip(end + 1)
                        &&& self.columns@[j].indices@ == crate::cells::identity(self.columns@[j].cells@.len())
                        &&& self.columns@[j].padding == 0
                        &&& self.columns@[j].start == o.start
                        &&& self.columns@[j].width == o.width
                        &&& self.columns@[j].wf()
                        &&& crate::cells::cells_model(nc.columns@[j].cells@) == r.subrange(st as int, end + 1)
                        &&& nc.columns@[j].indices@ == crate::cells::identity((end + 1 - st) as nat)
                        &&& nc.columns@[j].padding == 0
                        &&& nc.columns@[j].start == 0
                        &&& nc.columns@[j].width == 12
                        &&& nc.columns@[j].wf()
                    },
                forall|j: int| k <= j < n ==> #[trigger] self.columns@[j] == old(self).columns@[j],
                *self == (Cells { columns: self.columns, ..*old(self) }),
                *nc == (Cells { columns: nc.columns, ..*old(nc) }),
            decreases n - k,
        {
            proof {
                assert(old(self).columns@[k as int].wf());
            }
            let ghost before = *self;
            let removed = self.get_column(k).drain_cells(st..=end);
            proof {
                let o = old(self).columns@[k as int];
                assert(o.rows().len() == o.indices@.len());
                assert(o.shown() <= o.indices@.len());
                assert(crate::cells::cells_model(removed@).len() == removed@.len());
                assert(removed@.len() == end + 1 - st);
            }
            let col = Column::from_cells(removed);
            let ghost nb = *nc;
            nc.push_column(col);
            proof {
                assert forall|j: int| 0 <= j < k implies #[trigger] nc.columns@[j] == nb.columns@[j] by {}
                assert forall|j: int| 0 <= j < k implies #[trigger] self.columns@[j] == before.columns@[j] by {}
                let o = old(self).columns@[k as int];
                let r = o.rows().take(o.shown() as int);
                assert(before.columns@[k as int] == o);
                assert(nc.columns@[k as int].wf());
                assert(crate::cells::cells_model(nc.columns@[k as int].cells@) == r.subrange(st as int, end + 1));
                assert(nc.columns@[k as int].indices@ == crate::cells::identity((end + 1 - st) as nat));
                assert(self.columns@[k as int].wf());
                assert(crate::cells::cells_model(self.columns@[k as int].cells@) == r.take(st as int) + r.skip(end + 1));
            }
            k += 1;
        }
        proof {
            assert forall|j: int| 0 <= j < nc.columns@.len() implies (#[trigger] nc.columns@[j]).wf() by {
                assert(self.columns@[j].wf());
            }
        }
    }
}

/// Whether every open sheet is well formed and one of them is shown.
pub open spec fn sheets_wf(k: Csvs) -> bool {
    &&& k.handle < k.contexts@.len()
    &&& forall|i: int| 0 <= i < k.contexts@.len() ==> (#[trigger] k.contexts@[i]).cells.wf()
}

/// The column `f` is `o` with empty rows added at the end until it shows
/// at least `m` rows.
pub open spec fn padded_to(o: Column, f: Column, m: nat) -> bool {
    let add = if o.shown() < m {
        (m - o.shown()) as nat
    } else {
        0
    };
    &&& f.wf()
    &&& crate::cells::cells_model(f.cells@) == crate::cells::cells_model(o.cells@) + crate::row_ops::blanks(add)
    &&& f.indices@ == crate::row_ops::extended(o.indices@, add)
    &&& f.padding == o.padding
    &&& f.start == o.start
    &&& f.width == o.width
}

impl Column {
    /// Adds empty rows at the end until the column shows at least `m` rows.
    pub fn pad_to(&mut self, m: usize)
        requires
            old(self).wf(),
            old(self).cells@.len() + m <= usize::MAX,
        ensures
            padded_to(*old(self), *final(self), m as nat),
    {
        let ghost o = *self;
        let shown = self.len();
        let add = if shown < m {
            m - shown
        } else {
            0
        };
        let mut j: usize = 0;
        while j < add
            invariant
                j <= add,
                o.wf(),
                o.cells@.len() + add <= usize::MAX,
                self.wf(),
                crate::cells::cells_model(self.cells@) == crate::cells::cells_model(o.cells@) + crate::row_ops::blanks(j as nat),
                self.indices@ == crate::row_ops::extended(o.indices@, j as nat),
                self.cells@.len() == o.cells@.len() + j,
                self.padding == o.padding,
                self.start == o.start,
                self.width == o.width,
            decreases add - j,
        {
            let c = Cell::new("");
            proof {
                reveal_strlit("");
            }
            let ghost prev = self.cells@;
            self.push_cell(c);
            proof {
                assert(crate::cells::cells_model(self.cells@) =~= crate::cells::cells_model(prev).push(
                    crate::cells::new_cell_model(Seq::empty()),
                ));
                assert(crate::row_ops::blanks((j + 1) as nat) =~= crate::row_ops::blanks(j as nat).push(
                    crate::cells::new_cell_model(Seq::empty()),
                ));
                assert(self.indices@ =~= crate::row_ops::extended(o.indices@, (j + 1) as nat));
            }
            j += 1;
        }
    }
}

/// The column `f` is `o` with its shown rows put in order and then padded to
/// show `m` rows.
pub open spec fn spliced_col(o: Column, f: Column, m: nat) -> bool {
    exists|r: Column| #[trigger] reindexed(o, r) && padded_to(r, f, m)
}

/// The sheet `d2` is `d` with the columns of `src` (shown rows only, in
/// order) and their names put in from column `st` on, the column ids made
/// as many and aligned from `st` on, every column padded to show `m` rows,
/// and the sheet marked as written.
pub open spec fn cols_spliced(d: Cells, src: Cells, st: int, m: nat, d2: Cells) -> bool {
    let n = src.columns@.len() as int;
    &&& d2.columns@.len() == d.columns@.len() + n
    &&& forall|i: int|
        0 <= i < st ==> padded_to(d.columns@[i], #[trigger] d2.columns@[i], m)
    &&& forall|i: int|
        st + n <= i < d2.columns@.len() ==> padded_to(d.columns@[i - n], #[trigger] d2.columns@[i], m)
    &&& forall|i: int| 0 <= i < n ==> #[trigger] spliced_col(src.columns@[i], d2.columns@[st + i], m)
    &&& d2.header@ == d.header@.take(st) + src.header@.take(n) + d.header@.skip(st)
    &&& exists|ids: Seq<Cell>|
        {
            &&& ids.len() == d.col_ids@.len() + n
            &&& ids.take(d.col_ids@.len() as int) == d.col_ids@
            &&& forall|i: int|
                0 <= i < n ==> crate::cells::cell_model(#[trigger] ids[d.col_ids@.len() + i]) == crate::cells::new_cell_model(
                    crate::csv_io::base26(((d.col_ids@.len() + i) as u32) as nat),
                )
            &&& #[trigger] ids_aligned_to(ids, d2.col_ids@, d2.header@, st, d2.columns@.len() as int)
        }
    &&& d2 == (Cells { columns: d2.columns, header: d2.header, col_ids: d2.col_ids, written: true, ..d })
}

/// The column ids `f` are `o` with every id from `from` below `to` given the
/// width of the column name at its position.
pub open spec fn ids_aligned_to(o: Seq<Cell>, f: Seq<Cell>, header: Seq<Cell>, from: int, to: int) -> bool {
    &&& f.len() == o.len()
    &&& forall|i: int| 0 <= i < o.len() && (i < from || i >= to) ==> #[trigger] f[i] == o[i]
    &&& forall|i: int| from <= i < o.len() && i < to ==> #[trigger] f[i] == (Cell { width: header[i].width, ..o[i] })
}

impl Cells {
    /// Gives every column id from `from` below `to` the width of the column
    /// name at its position.
    pub fn align_col_ids_to(&mut self, from: usize, to: usize)
        requires
            to <= old(self).col_ids@.len(),
            to <= old(self).header@.len(),
        ensures
            ids_aligned_to(old(self).col_ids@, final(self).col_ids@, old(self).header@, from as int, to as int),
            *final(self) == (Cells { col_ids: final(self).col_ids, ..*old(self) }),
    {
        let mut i = from;
        while i < to
            invariant
                to <= old(self).col_ids@.len(),
                to <= self.header@.len(),
                from <= i,
                i <= to || i == from,
                self.col_ids@.len() == old(self).col_ids@.len(),
                forall|j: int| 0 <= j < old(self).col_ids@.len() && (j < from || j >= i) ==> #[trigger] self.col_ids@[j]
                    == old(self).col_ids@[j],
                forall|j: int| from <= j < i && j < to ==> #[trigger] self.col_ids@[j] == (Cell {
                    width: self.header@[j].width,
                    ..old(self).col_ids@[j]
                }),
                *self == (Cells { col_ids: self.col_ids, ..*old(self) }),
            decreases to - i,
        {
            let w = self.header[i].width;
            let c = self.col_id_mut(i);
            c.width = w;
            i += 1;
        }
    }
}

/// The sheets `k1` are `k0` without sheet `id` (see `Csvs::remove_context`).
pub open spec fn context_removed(k0: Csvs, k1: Csvs, id: int) -> bool {
    &&& k1.contexts@.len() == k0.contexts@.len() - 1
    &&& forall|k: int|
        0 <= k < k1.contexts@.len() ==> #[trigger] k1.contexts@[k] == (Context {
            id: crate::cells::shift_down(k0.contexts@[if k < id { k } else { k + 1 }].id, id as usize),
            ..k0.contexts@[if k < id { k } else { k + 1 }]
        })
    &&& k1.handle == crate::cells::shift_down(k0.handle, id as usize)
}

/// Whether the columns of `src` can be spliced into `d` at `st` with every
/// column padded to `m` rows.
pub open spec fn splice_cols_ok(d: Cells, src: Cells, st: int, m: nat) -> bool {
    let n = src.columns@.len();
    &&& st <= d.columns@.len()
    &&& st <= d.header@.len()
    &&& n <= src.header@.len()
    &&& st + n <= usize::MAX
    &&& d.col_ids@.len() + n <= u32::MAX
    &&& d.columns@.len() <= d.col_ids@.len()
    &&& d.columns@.len() <= d.header@.len()
    &&& forall|i: int| 0 <= i < d.columns@.len() ==> (#[trigger] d.columns@[i]).cells@.len() + m <= usize::MAX
    &&& forall|i: int| 0 <= i < n ==> (#[trigger] src.columns@[i]).shown() + m <= usize::MAX
}

/// What `splice_cols` does once sheet `id` was taken out of `k0` (giving
/// `k1`) and its focus cleared (giving `src`): its columns go into the shown
/// sheet from column `st` on, every column is padded to the larger row count
/// of the two sheets, the sheet and the tab line are drawn, then the bottom
/// line and a flush.
pub open spec fn cols_spliced_shown(s0: WinInfo, k1: Csvs, src: Cells, st: int, s3: WinInfo, k3: Csvs) -> bool {
    let d = k1.contexts@[k1.handle as int].cells;
    let n = src.columns@.len();
    if src.columns@.len() == 0 || d.columns@.len() == 0 {
        s3.request is Abort
    } else {
        let m = crate::cells::max_int(d.columns@[0].shown() as int, src.columns@[0].shown() as int) as nat;
        if !splice_cols_ok(d, src, st, m) || s0.num_cols + n > usize::MAX / 16 || m > usize::MAX / 16 {
            s3.request is Abort
        } else {
            exists|d2: Cells, s2: WinInfo, d3: Cells|
                {
                    &&& #[trigger] cols_spliced(d, src, st, m, d2)
                    &&& #[trigger] crate::render::screen_drawn(
                        WinInfo { num_cols: (s0.num_cols + n) as usize, num_rows: m as usize, ..s0 },
                        d2,
                        s2,
                        d3,
                    )
                    &&& if s2.request is Abort {
                        s3 == s2
                    } else {
                        exists|k2: Csvs, s4: WinInfo|
                            {
                                &&& #[trigger] shown_sheet_set(k1, d3, k2)
                                &&& #[trigger] context_printed(s2, k2, s4)
                                &&& k3.contexts@ == k2.contexts@ && k3.handle == k2.handle
                                &&& if s4.request is Abort {
                                    s3 == s4
                                } else {
                                    exists|m2: WinInfo| #[trigger] crate::terminal::bottom_drawn(s4, m2) && crate::terminal::flushed(m2, s3)
                                }
                            }
                    }
                }
        }
    }
}

/// What `splice_cols` does, from the window `win0` to `win1`.
pub open spec fn splice_cols_outcome(win0: WinInfo, con_id: usize, at_col: usize, ks0: Csvs, win1: WinInfo, ks1: Csvs) -> bool {
    &&& con_id >= ks0.contexts@.len() ==> win1.request is Abort
    &&& con_id < ks0.contexts@.len() ==> ({
        let src0 = ks0.contexts@[con_id as int].cells;
        exists|k1: Csvs|
            {
                &&& #[trigger] context_removed(ks0, k1, con_id as int)
                &&& if k1.handle >= k1.contexts@.len() || !src0.has_cell(src0.w_cell.0, src0.w_cell.1) {
                    win1.request is Abort
                } else {
                    exists|src: Cells|
                        #[trigger] crate::commands::focus_cleared(src0, src) && cols_spliced_shown(
                            win0,
                            k1,
                            src,
                            at_col as int,
                            win1,
                            ks1,
                        )
                }
            }
    })
}

impl WinInfo {
    /// Takes sheet `con_id` out of the open sheets and puts its columns into
    /// the shown sheet from column `at_col` on.
    #[verifier::rlimit(100)]
    #[verifier::loop_isolation(false)]
    pub fn splice_cols(&mut self, con_id: usize, at_col: usize, csvs: &mut Csvs)
        requires
            old(self).wf(),
            !(old(self).request is Abort),
            sheets_wf(*old(csvs)),
        ensures
            final(self).wf(),
            splice_cols_outcome(*old(self), con_id, at_col, *old(csvs), *final(self), *final(csvs)),
    {
        if con_id >= csvs.contexts.len() {
            self.abort("removal index should be < len");
            return;
        }
        let ghost src0 = csvs.contexts@[con_id as int].cells;
        let mut src_con = csvs.remove_context(con_id);
        let ghost k1 = *csvs;
        assert(context_removed(*old(csvs), k1, con_id as int));
        if csvs.handle >= csvs.contexts.len() {
            self.abort("index out of bounds");
            return;
        }
        let src = src_con.cells();
        self.unfocus(src);
        if self.is_aborted() {
            return;
        }
        let ghost s1 = *src;
        assert(crate::commands::focus_cleared(src0, s1));
        proof {
            let h = k1.handle as int;
            let j = if h < con_id { h } else { h + 1 };
            assert(old(csvs).contexts@[j].cells.wf());
            assert(k1.contexts@[h].cells == old(csvs).contexts@[j].cells);
        }
        let dest = csvs.get_cells();
        let n = src.columns.len();
        if n == 0 || dest.columns.len() == 0 {
            self.abort("index out of bounds");
            return;
        }
        let dr = dest.columns[0].len();
        let sr = src.columns[0].len();
        let m = if dr >= sr {
            dr
        } else {
            sr
        };
        if !Self::splice_cols_check(dest, src, at_col, m) || n > usize::MAX / 16 || self.num_cols > usize::MAX / 16 - n
            || m > usize::MAX / 16 {
            self.abort("index out of bounds");
            proof {
                let dd = k1.contexts@[k1.handle as int].cells;
                assert(dd == *dest);
                assert(m as nat == crate::cells::max_int(dd.columns@[0].shown() as int, s1.columns@[0].shown() as int) as nat);
                assert(cols_spliced_shown(*old(self), k1, s1, at_col as int, *self, *csvs));
            }
            return;
        }
        let ghost d = *dest;
        dest.splice_columns_from(src, at_col, m);
        let ghost d2 = *dest;
        self.num_cols = self.num_cols + n;
        self.num_rows = m;
        let ghost s1w = *self;
        self.draw_screen(dest);
        let ghost s2 = *self;
        let ghost d3 = *dest;
        let ghost k2 = *csvs;
        assert(shown_sheet_set(k1, d3, k2));
        if self.is_aborted() {
            assert(crate::render::screen_drawn(s1w, d2, s2, d3));
            return;
        }
        self.print_context(csvs);
        let ghost s4 = *self;
        assert(context_printed(s2, k2, s4));
        if self.is_aborted() {
            assert(crate::render::screen_drawn(s1w, d2, s2, d3));
            return;
        }
        self.draw_focused_content();
        let ghost m2 = *self;
        self.flush();
        assert(crate::terminal::bottom_drawn(s4, m2));
        assert(crate::render::screen_drawn(s1w, d2, s2, d3));
    }

    fn splice_cols_check(d: &Cells, src: &Cells, st: usize, m: usize) -> (r: bool)
        requires
            src.wf(),
        ensures
            r == splice_cols_ok(*d, *src, st as int, m as nat),
    {
        let n = src.columns.len();
        if !(st <= d.columns.len() && st <= d.header.len() && n <= src.header.len() && st <= usize::MAX - n
            && n <= 4294967295usize && d.col_ids.len() <= 4294967295usize - n && d.columns.len() <= d.col_ids.len() && d.columns.len() <= d.header.len()) {
            return false;
        }
        let mut i: usize = 0;
        while i < d.columns.len()
            invariant
                i <= d.columns@.len(),
                forall|j: int| 0 <= j < i ==> (#[trigger] d.columns@[j]).cells@.len() + m <= usize::MAX,
            decreases d.columns@.len() - i,
        {
            if d.columns[i].cells.len() > usize::MAX - m {
                return false;
            }
            i += 1;
        }
        let mut i: usize = 0;
        while i < n
            invariant
                i <= n,
                n == src.columns@.len(),
                src.wf(),
                forall|j: int| 0 <= j < i ==> (#[trigger] src.columns@[j]).shown() + m <= usize::MAX,
            decreases n - i,
        {
            assert(src.columns@[i as int].wf());
            let c = &src.columns[i];
            if c.padding > c.cells.len() || c.cells.len() - c.padding > usize::MAX - m {
                return false;
            }
            i += 1;
        }
        true
    }
}

impl Cells {
    /// Moves the columns of `src` (shown rows only, in order) and their
    /// names into this sheet from column `st` on, adds as many column ids and
    /// aligns them from `st` on, pads every column to show `m` rows and marks
    /// the sheet as written.
    #[verifier::rlimit(100)]
    fn splice_columns_from(&mut self, src: &mut Cells, st: usize, m: usize)
        requires
            old(self).wf(),
            old(src).wf(),
            splice_cols_ok(*old(self), *old(src), st as int, m as nat),
        ensures
            cols_spliced(*old(self), *old(src), st as int, m as nat, *final(self)),
            final(self).wf(),
    {
        let n = src.columns.len();
        let ghost d0 = *self;
        let ghost s0 = *src;
        let mut i: usize = 0;
        while i < n
            invariant
                i <= n,
                n == s0.columns@.len(),
                splice_cols_ok(d0, s0, st as int, m as nat),
                s0.wf(),
                src.columns@ == s0.columns@.skip(i as int),
                src.header@ == s0.header@.skip(i as int),
                self.columns@.len() == d0.columns@.len() + i,
                forall|j: int| 0 <= j < st ==> #[trigger] self.columns@[j] == d0.columns@[j],
                forall|j: int| st <= j < st + i ==> reindexed(s0.columns@[j - st], #[trigger] self.columns@[j]),
                forall|j: int| st + i <= j < self.columns@.len() ==> #[trigger] self.columns@[j] == d0.columns@[j - i],
                self.header@ == d0.header@.take(st as int) + s0.header@.take(i as int) + d0.header@.skip(st as int),
                self.col_ids@.len() == d0.col_ids@.len() + i,
                self.col_ids@.take(d0.col_ids@.len() as int) == d0.col_ids@,
                forall|q: int|
                    0 <= q < i ==> crate::cells::cell_model(#[trigger] self.col_ids@[d0.col_ids@.len() + q])
                        == crate::cells::new_cell_model(crate::csv_io::base26(((d0.col_ids@.len() + q) as u32) as nat)),
                *self == (Cells { columns: self.columns, header: self.header, col_ids: self.col_ids, ..d0 }),
            decreases n - i,
        {
            proof {
                assert(src.columns@[0] == s0.columns@[i as int]);
                assert(s0.columns@[i as int].wf());
                assert(src.header@[0] == s0.header@[i as int]);
            }
            let mut col = src.columns.remove(0);
            col.reindex();
            let name = src.header.remove(0);
            let ghost before = *self;
            let ghost ids_b = self.col_ids@;
            self.insert_column(st + i, col);
            self.insert_col_name(st + i, name);
            self.increment_col_ids();
            proof {
                assert(src.columns@ =~= s0.columns@.skip(i + 1));
                assert(src.header@ =~= s0.header@.skip(i + 1));
                assert(self.header@ =~= d0.header@.take(st as int) + s0.header@.take(i + 1) + d0.header@.skip(st as int));
                assert(self.col_ids@.take(d0.col_ids@.len() as int) =~= d0.col_ids@) by {
                    assert(self.col_ids@.take(ids_b.len() as int) == ids_b);
                    assert(ids_b.take(d0.col_ids@.len() as int) == d0.col_ids@);
                }
                assert forall|q: int|
                    0 <= q < i + 1 implies crate::cells::cell_model(#[trigger] self.col_ids@[d0.col_ids@.len() + q])
                        == crate::cells::new_cell_model(crate::csv_io::base26(((d0.col_ids@.len() + q) as u32) as nat)) by {
                    if q < i {
                        assert(self.col_ids@.take(ids_b.len() as int)[d0.col_ids@.len() + q] == ids_b[d0.col_ids@.len() + q]);
                    }
                }
                assert forall|j: int| 0 <= j < st implies #[trigger] self.columns@[j] == d0.columns@[j] by {
                    assert(self.columns@[j] == before.columns@[j]);
                }
                assert forall|j: int| st <= j < st + i + 1 implies reindexed(s0.columns@[j - st], #[trigger] self.columns@[j]) by {
                    if j < st + i {
                        assert(self.columns@[j] == before.columns@[j]);
                    }
                }
                assert forall|j: int| st + i + 1 <= j < self.columns@.len() implies #[trigger] self.columns@[j] == d0.columns@[j - (i + 1)] by {
                    assert(self.columns@[j] == before.columns@[j - 1]);
                }
            }
            i += 1;
        }
        let ghost ids = self.col_ids@;
        let nc = self.columns.len();
        self.align_col_ids_to(st, nc);
        let ghost d1 = *self;
        proof {
            assert forall|j: int| 0 <= j < nc implies (#[trigger] d1.columns@[j]).wf() by {
                if j < st {
                    assert(d0.columns@[j].wf());
                } else if j >= st + n {
                    assert(d0.columns@[j - n].wf());
                }
            }
            assert forall|j: int| 0 <= j < nc implies (#[trigger] d1.columns@[j]).cells@.len() + m <= usize::MAX by {
                if j < st {
                    assert(d0.columns@[j].cells@.len() + m <= usize::MAX);
                } else if j >= st + n {
                    assert(d0.columns@[j - n].cells@.len() + m <= usize::MAX);
                } else {
                    assert(s0.columns@[j - st].shown() + m <= usize::MAX);
                }
            }
        }
        let mut k: usize = 0;
        while k < nc
            invariant
                k <= nc,
                nc == self.columns@.len(),
                nc == d1.columns@.len(),
                forall|j: int| 0 <= j < nc ==> (#[trigger] d1.columns@[j]).wf(),
                forall|j: int| 0 <= j < nc ==> (#[trigger] d1.columns@[j]).cells@.len() + m <= usize::MAX,
                forall|j: int| 0 <= j < k ==> padded_to(d1.columns@[j], #[trigger] self.columns@[j], m as nat),
                forall|j: int| k <= j < nc ==> #[trigger] self.columns@[j] == d1.columns@[j],
                *self == (Cells { columns: self.columns, ..d1 }),
            decreases nc - k,
        {
            let ghost before = *self;
            self.get_column(k).pad_to(m);
            proof {
                assert forall|j: int| 0 <= j < k implies padded_to(d1.columns@[j], #[trigger] self.columns@[j], m as nat) by {
                    assert(self.columns@[j] == before.columns@[j]);
                }
            }
            k += 1;
        }
        self.written = true;
        proof {
            let f = *self;
            assert forall|j: int| 0 <= j < n implies #[trigger] spliced_col(s0.columns@[j], f.columns@[st + j], m as nat) by {
                assert(reindexed(s0.columns@[j], d1.columns@[st + j]));
                assert(padded_to(d1.columns@[st + j], f.columns@[st + j], m as nat));
            }
            assert forall|j: int| 0 <= j < st implies padded_to(d0.columns@[j], #[trigger] f.columns@[j], m as nat) by {
                assert(d1.columns@[j] == d0.columns@[j]);
            }
            assert forall|j: int| st + n <= j < f.columns@.len() implies padded_to(d0.columns@[j - n], #[trigger] f.columns@[j], m as nat) by {
                assert(d1.columns@[j] == d0.columns@[j - n]);
            }
            assert(ids_aligned_to(ids, f.col_ids@, f.header@, st as int, f.columns@.len() as int));
            assert(cols_spliced(d0, s0, st as int, m as nat, f));
            assert forall|j: int| 0 <= j < nc implies (#[trigger] f.columns@[j]).wf() by {
                assert(padded_to(d1.columns@[j], f.columns@[j], m as nat));
            }
        }
    }
}

/// The shown rows of `c`, in order.
pub open spec fn rows_of(c: Column) -> Seq<crate::cells::CellModel> {
    c.rows().take(c.shown() as int)
}

/// `add` put into `base` before row `st`, or after its end when `st` is at
/// or past the `win` rows of the window.
pub open spec fn merge_at(
    base: Seq<crate::cells::CellModel>,
    add: Seq<crate::cells::CellModel>,
    st: int,
    win: int,
) -> Seq<crate::cells::CellModel> {
    if st >= win {
        base + add
    } else {
        base.take(st) + add + base.skip(st)
    }
}

/// The columns and names of the sheet being spliced in that are left when
/// dest column `i` comes up: each dest column before it took the first one
/// with its name.
pub open spec fn src_left(cols: Seq<Column>, hdr: Seq<Cell>, dhdr: Seq<Cell>, i: int) -> (Seq<Column>, Seq<Cell>)
    decreases i,
{
    if i <= 0 {
        (cols, hdr)
    } else {
        let prev = src_left(cols, hdr, dhdr, i - 1);
        match crate::sort::first_with(prev.1, dhdr[i - 1].content@, 0) {
            Some(j) => (prev.0.remove(j), prev.1.remove(j)),
            None => prev,
        }
    }
}

/// Whether dest column `d` can take its rows from `left` (see
/// `spliced_rows`) without a panic.
pub open spec fn splice_row_ok(
    d: Column,
    left: (Seq<Column>, Seq<Cell>),
    name: Seq<char>,
    st: int,
    win: int,
    nr: nat,
) -> bool {
    let base = rows_of(d);
    match crate::sort::first_with(left.1, name, 0) {
        Some(j) => {
            let m1 = merge_at(base, rows_of(left.0[j]), st, win);
            &&& j < left.0.len()
            &&& base.len() + rows_of(left.0[j]).len() + nr <= usize::MAX
            &&& (st < win ==> st <= base.len())
            &&& (j == left.1.len() - 1 && st < win ==> st <= m1.len())
        },
        None => base.len() + nr <= usize::MAX && (st < win ==> st <= base.len()),
    }
}

/// The rows of dest column `d` after the splice: the rows of the first
/// column of `left` with the same name go in at row `st` (see `merge_at`);
/// `nr` empty rows go in there when no column has that name, or when that
/// column was the last one left.
pub open spec fn spliced_rows(
    d: Column,
    left: (Seq<Column>, Seq<Cell>),
    name: Seq<char>,
    st: int,
    win: int,
    nr: nat,
) -> Seq<crate::cells::CellModel> {
    let base = rows_of(d);
    match crate::sort::first_with(left.1, name, 0) {
        Some(j) => {
            let m1 = merge_at(base, rows_of(left.0[j]), st, win);
            if j == left.1.len() - 1 {
                merge_at(m1, crate::row_ops::blanks(nr), st, win)
            } else {
                m1
            }
        },
        None => merge_at(base, crate::row_ops::blanks(nr), st, win),
    }
}

/// `n` empty cells.
pub fn blank_cells(n: usize) -> (v: Vec<Cell>)
    ensures
        crate::cells::cells_model(v@) == crate::row_ops::blanks(n as nat),
{
    let mut v: Vec<Cell> = Vec::new();
    let mut j: usize = 0;
    while j < n
        invariant
            j <= n,
            crate::cells::cells_model(v@) == crate::row_ops::blanks(j as nat),
        decreases n - j,
    {
        let c = Cell::new("");
        proof {
            reveal_strlit("");
        }
        let ghost prev = v@;
        v.push(c);
        proof {
            assert(crate::cells::cells_model(v@) =~= crate::cells::cells_model(prev).push(
                crate::cells::new_cell_model(Seq::empty()),
            ));
            assert(crate::row_ops::blanks((j + 1) as nat) =~= crate::row_ops::blanks(j as nat).push(
                crate::cells::new_cell_model(Seq::empty()),
            ));
        }
        j += 1;
    }
    v
}

impl Column {
    /// Puts the cells `add` in before stored cell `st`, or at the end when
    /// `st` is at or past `win`; the rows are then the stored cells in order.
    pub fn insert_cells_at(&mut self, add: Vec<Cell>, st: usize, win: usize)
        requires
            old(self).padding == 0,
            st < win ==> st <= old(self).cells@.len(),
            old(self).cells@.len() + add@.len() <= usize::MAX,
        ensures
            final(self).wf(),
            crate::cells::cells_model(final(self).cells@) == merge_at(
                crate::cells::cells_model(old(self).cells@),
                crate::cells::cells_model(add@),
                st as int,
                win as int,
            ),
            final(self).indices@ == crate::cells::identity(final(self).cells@.len()),
            final(self).padding == 0,
            final(self).start == old(self).start,
            final(self).width == old(self).width,
    {
        let ghost base = self.cells@;
        let mut add = add;
        let ghost a = add@;
        if st >= win {
            self.cells.append(&mut add);
            proof {
                assert(crate::cells::cells_model(self.cells@) =~= crate::cells::cells_model(base) + crate::cells::cells_model(a));
            }
        } else {
            let mut tail = self.cells.split_off(st);
            let ghost t = tail@;
            self.cells.append(&mut add);
            self.cells.append(&mut tail);
            proof {
                assert(self.cells@ =~= base.take(st as int) + a + base.skip(st as int));
                assert(crate::cells::cells_model(self.cells@) =~= crate::cells::cells_model(base).take(st as int)
                    + crate::cells::cells_model(a) + crate::cells::cells_model(base).skip(st as int));
            }
        }
        let n = self.cells.len();
        let mut ind: Vec<usize> = Vec::new();
        let mut q: usize = 0;
        while q < n
            invariant
                q <= n,
                ind@ == crate::cells::identity(q as nat),
            decreases n - q,
        {
            ind.push(q);
            q += 1;
            assert(ind@ =~= crate::cells::identity(q as nat));
        }
        self.indices = ind;
    }
}

/// The first of the names `hdr` that is `name`.
fn first_named(hdr: &Vec<Cell>, name: &str) -> (r: Option<usize>)
    ensures
        r matches Some(k) ==> crate::sort::first_with(hdr@, name@, 0) == Some(k as int),
        r is None ==> crate::sort::first_with(hdr@, name@, 0) is None,
{
    let mut j: usize = 0;
    while j < hdr.len()
        invariant
            j <= hdr@.len(),
            crate::sort::first_with(hdr@, name@, 0) == crate::sort::first_with(hdr@, name@, j as int),
        decreases hdr@.len() - j,
    {
        if crate::text::same_text(hdr[j].content.as_str(), name) {
            return Some(j);
        }
        j += 1;
    }
    None
}

impl Cells {
    /// Splices rows into dest column `i` from the columns of `src` left (see
    /// `spliced_rows`); `false` (and nothing known of the result) where that
    /// would panic.
    #[verifier::rlimit(80)]
    fn splice_rows_step(&mut self, src: &mut Cells, i: usize, st: usize, win: usize, nr: usize) -> (ok: bool)
        requires
            old(self).wf(),
            old(src).wf(),
            i < old(self).columns@.len(),
            i < old(self).header@.len(),
            old(src).header@.len() == old(src).columns@.len(),
        ensures
            ok == splice_row_ok(
                old(self).columns@[i as int],
                (old(src).columns@, old(src).header@),
                old(self).header@[i as int].content@,
                st as int,
                win as int,
                nr as nat,
            ),
            ok ==> {
                let left = (old(src).columns@, old(src).header@);
                let name = old(self).header@[i as int].content@;
                &&& final(self).wf()
                &&& final(src).wf()
                &&& final(src).header@.len() == final(src).columns@.len()
                &&& (final(src).columns@, final(src).header@) == match crate::sort::first_with(left.1, name, 0) {
                    Some(j) => (left.0.remove(j), left.1.remove(j)),
                    None => left,
                }
                &&& final(self).columns@.len() == old(self).columns@.len()
                &&& forall|k: int| 0 <= k < old(self).columns@.len() && k != i ==> #[trigger] final(self).columns@[k] == old(self).columns@[k]
                &&& crate::cells::cells_model(final(self).columns@[i as int].cells@) == spliced_rows(
                    old(self).columns@[i as int],
                    left,
                    name,
                    st as int,
                    win as int,
                    nr as nat,
                )
                &&& final(self).columns@[i as int].indices@ == crate::cells::identity(final(self).columns@[i as int].cells@.len())
                &&& final(self).columns@[i as int].padding == 0
                &&& final(self).columns@[i as int].start == old(self).columns@[i as int].start
                &&& final(self).columns@[i as int].width == old(self).columns@[i as int].width
                &&& *final(self) == (Cells { columns: final(self).columns, ..*old(self) })
            },
    {
        let name = crate::text::text_of(self.header[i].content.as_str());
        let ghost o = self.columns@[i as int];
        let ghost left = (src.columns@, src.header@);
        let jr = first_named(&src.header, name.as_str());
        proof {
            assert(o.wf());
            crate::sort::lemma_first_with_bound(src.header@, name@, 0);
        }
        let blen = self.columns[i].len();
        proof {
            assert(o.rows().len() == o.indices@.len());
            assert(rows_of(o).len() == blen);
        }
        match jr {
            Some(j) => {
                proof {
                    assert(src.columns@[j as int].wf());
                    let sc0 = src.columns@[j as int];
                    assert(sc0.rows().len() == sc0.indices@.len());
                }
                let slen = src.columns[j].len();
                assert(rows_of(src.columns@[j as int]).len() == slen);
                proof {
                    assert(crate::sort::first_with(left.1, name@, 0) == Some(j as int));
                    assert(left.0[j as int] == src.columns@[j as int]);
                    assert(old(self).header@[i as int].content@ == name@);
                }
                if blen > usize::MAX - slen || blen + slen > usize::MAX - nr || (st < win && st > blen) {
                    assert(!splice_row_ok(o, left, name@, st as int, win as int, nr as nat));
                    return false;
                }
                let last = j == src.header.len() - 1;
                if last && st < win && st > blen + slen {
                    return false;
                }
                let ghost before = *self;
                let mut sc = src.columns.remove(j);
                sc.reindex();
                let _ = src.header.remove(j);
                let col = self.get_column(i);
                col.reindex();
                assert(crate::cells::cells_model(col.cells@).len() == col.cells@.len());
                assert(crate::cells::cells_model(sc.cells@).len() == sc.cells@.len());
                col.insert_cells_at(sc.cells, st, win);
                assert(crate::cells::cells_model(col.cells@).len() == col.cells@.len());
                if last {
                    let b = blank_cells(nr);
                    assert(crate::cells::cells_model(b@).len() == b@.len());
                    col.insert_cells_at(b, st, win);
                }
                proof {
                    assert forall|k: int| 0 <= k < src.columns@.len() implies (#[trigger] src.columns@[k]).wf() by {
                        if k < j {
                            assert(src.columns@[k] == left.0[k]);
                        } else {
                            assert(src.columns@[k] == left.0[k + 1]);
                        }
                        assert(old(src).columns@[k].wf());
                        assert(old(src).columns@[k + 1].wf());
                    }
                    assert forall|k: int| 0 <= k < self.columns@.len() implies (#[trigger] self.columns@[k]).wf() by {
                        if k != i {
                            assert(self.columns@[k] == before.columns@[k]);
                        }
                    }
                }
                true
            },
            None => {
                if blen > usize::MAX - nr || (st < win && st > blen) {
                    return false;
                }
                let ghost before = *self;
                let col = self.get_column(i);
                col.reindex();
                assert(crate::cells::cells_model(col.cells@).len() == col.cells@.len());
                let b = blank_cells(nr);
                assert(crate::cells::cells_model(b@).len() == b@.len());
                col.insert_cells_at(b, st, win);
                proof {
                    assert forall|k: int| 0 <= k < self.columns@.len() implies (#[trigger] self.columns@[k]).wf() by {
                        if k != i {
                            assert(self.columns@[k] == before.columns@[k]);
                        }
                    }
                }
                true
            },
        }
    }
}

/// Whether dest columns `0..n` of `d` all take their rows from the sheet
/// `src` without a panic.
pub open spec fn splice_rows_ok(d: Cells, src: Cells, n: int, st: int, win: int, nr: nat) -> bool {
    forall|k: int|
        0 <= k < n ==> #[trigger] splice_row_ok(
            d.columns@[k],
            src_left(src.columns@, src.header@, d.header@, k),
            d.header@[k].content@,
            st,
            win,
            nr,
        )
}

/// The column made for a column `c` of the spliced sheet whose name no
/// dest column has: 256 plus `st` empty rows, its rows, then as many empty
/// rows as the first dest column has below row `end`.
pub open spec fn extra_column(c: Column, st: nat, d0rows: nat, end: nat, f: Column) -> bool {
    let after = if d0rows > end + 1 {
        (d0rows - end - 1) as nat
    } else {
        0
    };
    &&& f.wf()
    &&& crate::cells::cells_model(f.cells@) == crate::row_ops::blanks(256 + st) + rows_of(c) + crate::row_ops::blanks(after)
    &&& f.indices@ == crate::cells::identity(f.cells@.len())
    &&& f.padding == 0
    &&& f.start == 0
    &&& f.width == 12
}

/// The sheet `d2` after the rows of `src` were spliced into `d` at row `st`
/// (see `spliced_rows`, with `win` rows in the window and `nr` rows in
/// `src`), and the columns of `src` whose names no dest column has were
/// added at the end (see `extra_column`).
pub open spec fn rows_spliced(d: Cells, src: Cells, st: nat, win: nat, nr: nat, d2: Cells) -> bool {
    let n = d.columns@.len() as int;
    let left = src_left(src.columns@, src.header@, d.header@, n);
    let l = left.0.len() as int;
    &&& d2.columns@.len() == n + l
    &&& forall|k: int|
        0 <= k < n ==> {
            &&& crate::cells::cells_model((#[trigger] d2.columns@[k]).cells@) == spliced_rows(
                d.columns@[k],
                src_left(src.columns@, src.header@, d.header@, k),
                d.header@[k].content@,
                st as int,
                win as int,
                nr,
            )
            &&& d2.columns@[k].indices@ == crate::cells::identity(d2.columns@[k].cells@.len())
            &&& d2.columns@[k].padding == 0
            &&& d2.columns@[k].start == d.columns@[k].start
            &&& d2.columns@[k].width == d.columns@[k].width
        }
    &&& forall|q: int|
        0 <= q < l ==> extra_column(left.0[q], st, d2.columns@[0].cells@.len() as nat, st + nr, #[trigger] d2.columns@[n + q])
    &&& d2.header@ == d.header@ + left.1
    &&& d2.col_ids@.len() == d.col_ids@.len() + l
    &&& d2.col_ids@.take(d.col_ids@.len() as int) == d.col_ids@
    &&& forall|q: int|
        0 <= q < l ==> crate::cells::cell_model(#[trigger] d2.col_ids@[d.col_ids@.len() + q]) == crate::cells::new_cell_model(
            crate::csv_io::base26(((d.col_ids@.len() + q) as u32) as nat),
        )
    &&& d2 == (Cells { columns: d2.columns, header: d2.header, col_ids: d2.col_ids, written: true, ..d })
}

impl Cells {
    /// Splices the rows of `src` into this sheet (see `rows_spliced`);
    /// `false` where that would panic.
    #[verifier::rlimit(100)]
    #[verifier::loop_isolation(false)]
    fn splice_rows_from(&mut self, src: &mut Cells, st: usize, win: usize, nr: usize) -> (ok: bool)
        requires
            old(self).wf(),
            old(src).wf(),
            old(src).header@.len() == old(src).columns@.len(),
            old(self).header@.len() >= old(self).columns@.len(),
            st + nr <= usize::MAX,
        ensures
            ok == splice_rows_all_ok(*old(self), *old(src), st as nat, win as nat, nr as nat),
            ok ==> final(self).wf() && rows_spliced(*old(self), *old(src), st as nat, win as nat, nr as nat, *final(self)),
    {
        let n = self.columns.len();
        let ghost d0 = *self;
        let ghost s0 = *src;
        let mut k: usize = 0;
        while k < n
            invariant
                k <= n,
                n == d0.columns@.len(),
                self.wf(),
                src.wf(),
                src.header@.len() == src.columns@.len(),
                (src.columns@, src.header@) == src_left(s0.columns@, s0.header@, d0.header@, k as int),
                self.columns@.len() == n,
                self.header@ == d0.header@,
                forall|j: int| k <= j < n ==> #[trigger] self.columns@[j] == d0.columns@[j],
                forall|j: int|
                    0 <= j < k ==> {
                        &&& crate::cells::cells_model((#[trigger] self.columns@[j]).cells@) == spliced_rows(
                            d0.columns@[j],
                            src_left(s0.columns@, s0.header@, d0.header@, j),
                            d0.header@[j].content@,
                            st as int,
                            win as int,
                            nr as nat,
                        )
                        &&& self.columns@[j].indices@ == crate::cells::identity(self.columns@[j].cells@.len())
                        &&& self.columns@[j].padding == 0
                        &&& self.columns@[j].start == d0.columns@[j].start
                        &&& self.columns@[j].width == d0.columns@[j].width
                    },
                splice_rows_ok(d0, s0, k as int, st as int, win as int, nr as nat),
                *self == (Cells { columns: self.columns, ..d0 }),
            decreases n - k,
        {
            let ghost before = *self;
            if !self.splice_rows_step(src, k, st, win, nr) {
                assert(!splice_rows_ok(d0, s0, n as int, st as int, win as int, nr as nat)) by {
                    assert(!splice_row_ok(
                        d0.columns@[k as int],
                        src_left(s0.columns@, s0.header@, d0.header@, k as int),
                        d0.header@[k as int].content@,
                        st as int,
                        win as int,
                        nr as nat,
                    ));
                }
                return false;
            }
            proof {
                assert(src_left(s0.columns@, s0.header@, d0.header@, k + 1) == (src.columns@, src.header@));
                assert forall|j: int| 0 <= j < k implies #[trigger] self.columns@[j] == before.columns@[j] by {}
            }
            k += 1;
        }
        let ghost dm = *self;
        let ghost left = (src.columns@, src.header@);
        let l = src.columns.len();
        if l > 0 && n == 0 {
            return false;
        }
        if l > 4294967295usize || self.col_ids.len() > 4294967295usize - l {
            return false;
        }
        let d0rows: usize = if n > 0 {
            self.columns[0].cells.len()
        } else {
            0
        };
        proof {
            if n > 0 {
                assert(crate::cells::cells_model(dm.columns@[0].cells@).len() == dm.columns@[0].cells@.len());
            }
        }
        let end = st + nr;
        let after = if d0rows > end && d0rows - end > 1 {
            d0rows - end - 1
        } else {
            0
        };
        let mut q: usize = 0;
        while q < l
            invariant
                q <= l,
                l == left.0.len(),
                left.1.len() == l,
                forall|j: int| 0 <= j < l ==> (#[trigger] left.0[j]).wf(),
                forall|j: int| 0 <= j < q ==> 256 + st + rows_of(#[trigger] left.0[j]).len() + after <= usize::MAX,
                src.columns@ == left.0,
            decreases l - q,
        {
            let c0 = &src.columns[q];
            proof {
                assert(c0.wf());
                assert(c0.rows().len() == c0.indices@.len());
            }
            let sl = c0.len();
            assert(rows_of(*c0).len() == sl);
            if st > usize::MAX - 256 || sl > usize::MAX - 256 - st || after > usize::MAX - 256 - st - sl {
                assert(!splice_rows_all_ok(d0, s0, st as nat, win as nat, nr as nat));
                return false;
            }
            q += 1;
        }
        let mut q: usize = 0;
        while q < l
            invariant
                q <= l,
                l == left.0.len(),
                left.1.len() == l,
                forall|j: int| 0 <= j < l ==> (#[trigger] left.0[j]).wf(),
                forall|j: int| 0 <= j < l ==> 256 + st + rows_of(#[trigger] left.0[j]).len() + after <= usize::MAX,
                src.columns@ == left.0.skip(q as int),
                src.header@ == left.1.skip(q as int),
                self.columns@.len() == n + q,
                forall|j: int| 0 <= j < n ==> #[trigger] self.columns@[j] == dm.columns@[j],
                forall|j: int| 0 <= j < q ==> extra_column(left.0[j], st as nat, d0rows as nat, end as nat, #[trigger] self.columns@[n + j]),
                self.header@ == d0.header@ + left.1.take(q as int),
                self.col_ids@.len() == d0.col_ids@.len() + q,
                self.col_ids@.take(d0.col_ids@.len() as int) == d0.col_ids@,
                forall|j: int|
                    0 <= j < q ==> crate::cells::cell_model(#[trigger] self.col_ids@[d0.col_ids@.len() + j])
                        == crate::cells::new_cell_model(crate::csv_io::base26(((d0.col_ids@.len() + j) as u32) as nat)),
                *self == (Cells { columns: self.columns, header: self.header, col_ids: self.col_ids, ..d0 }),
            decreases l - q,
        {
            proof {
                assert(src.columns@[0] == left.0[q as int]);
                assert(src.header@[0] == left.1[q as int]);
            }
            let mut sc = src.columns.remove(0);
            sc.reindex();
            let nm = src.header.remove(0);
            let ghost hb = self.header@;
            let ghost ids_b = self.col_ids@;
            self.header.push(nm);
            self.increment_col_ids();
            let mut dc = Column::with_blank_rows(st);
            proof {
                assert(crate::cells::cells_model(dc.cells@).len() == dc.cells@.len());
                assert(crate::cells::cells_model(sc.cells@).len() == sc.cells@.len());
            }
            dc.insert_cells_at(sc.cells, 0, 0);
            let bl = blank_cells(after);
            proof {
                assert(crate::cells::cells_model(dc.cells@).len() == dc.cells@.len());
                assert(crate::cells::cells_model(bl@).len() == bl@.len());
            }
            dc.insert_cells_at(bl, 0, 0);
            let ghost cb = *self;
            self.push_column(dc);
            proof {
                assert(src.columns@ =~= left.0.skip(q + 1));
                assert(src.header@ =~= left.1.skip(q + 1));
                assert(self.header@ =~= d0.header@ + left.1.take(q + 1));
                assert(self.col_ids@.take(d0.col_ids@.len() as int) =~= d0.col_ids@) by {
                    assert(self.col_ids@.take(ids_b.len() as int) == ids_b);
                }
                assert forall|j: int|
                    0 <= j < q + 1 implies crate::cells::cell_model(#[trigger] self.col_ids@[d0.col_ids@.len() + j])
                        == crate::cells::new_cell_model(crate::csv_io::base26(((d0.col_ids@.len() + j) as u32) as nat)) by {
                    if j < q {
                        assert(self.col_ids@.take(ids_b.len() as int)[d0.col_ids@.len() + j] == ids_b[d0.col_ids@.len() + j]);
                    }
                }
                assert forall|j: int| 0 <= j < n implies #[trigger] self.columns@[j] == dm.columns@[j] by {
                    assert(self.columns@[j] == cb.columns@[j]);
                }
                assert forall|j: int| 0 <= j < q + 1 implies extra_column(left.0[j], st as nat, d0rows as nat, end as nat, #[trigger] self.columns@[n + j]) by {
                    if j < q {
                        assert(self.columns@[n + j] == cb.columns@[n + j]);
                    } else {
                        assert(crate::cells::cells_model(self.columns@[n + j].cells@) =~= crate::row_ops::blanks(256 + st as nat)
                            + rows_of(left.0[j]) + crate::row_ops::blanks(if d0rows > end + 1 { (d0rows - end - 1) as nat } else { 0 }));
                    }
                }
            }
            q += 1;
        }
        self.written = true;
        proof {
            assert(left.1.take(l as int) =~= left.1);
            let f = *self;
            assert forall|j: int| 0 <= j < f.columns@.len() implies (#[trigger] f.columns@[j]).wf() by {
                if j < n {
                    assert(f.columns@[j] == dm.columns@[j]);
                    assert(dm.columns@[j].wf());
                } else {
                    assert(extra_column(left.0[j - n], st as nat, d0rows as nat, end as nat, f.columns@[n + (j - n)]));
                }
            }
            assert(rows_spliced(d0, s0, st as nat, win as nat, nr as nat, f));
        }
        true
    }
}

/// Whether a splice of the rows of `src` into `d` (see `rows_spliced`) runs
/// without a panic.
pub open spec fn splice_rows_all_ok(d: Cells, src: Cells, st: nat, win: nat, nr: nat) -> bool {
    let n = d.columns@.len() as int;
    let left = src_left(src.columns@, src.header@, d.header@, n);
    let l = left.0.len();
    let d0rows = if n > 0 {
        spliced_rows(d.columns@[0], src_left(src.columns@, src.header@, d.header@, 0), d.header@[0].content@, st as int, win as int, nr).len()
    } else {
        0
    };
    let after = if d0rows > st + nr + 1 {
        (d0rows - st - nr - 1) as nat
    } else {
        0
    };
    &&& splice_rows_ok(d, src, n, st as int, win as int, nr)
    &&& (l > 0 ==> n > 0)
    &&& d.col_ids@.len() + l <= u32::MAX
    &&& forall|q: int| 0 <= q < l ==> 256 + st + rows_of(#[trigger] left.0[q]).len() + after <= usize::MAX
}

/// After the shown sheet was drawn (giving `s2` and `d3`): the tab line is
/// written from the sheets `k1` with `d3` shown, then the bottom line and a
/// flush.
pub open spec fn tabs_and_bottom(s2: WinInfo, k1: Csvs, d3: Cells, s3: WinInfo, k3: Csvs) -> bool {
    if s2.request is Abort {
        s3 == s2
    } else {
        exists|k2: Csvs, s4: WinInfo|
            {
                &&& #[trigger] shown_sheet_set(k1, d3, k2)
                &&& #[trigger] context_printed(s2, k2, s4)
                &&& k3.contexts@ == k2.contexts@ && k3.handle == k2.handle
                &&& if s4.request is Abort {
                    s3 == s4
                } else {
                    exists|m2: WinInfo| #[trigger] crate::terminal::bottom_drawn(s4, m2) && crate::terminal::flushed(m2, s3)
                }
            }
    }
}

/// What `splice_rows` does once sheet `id` was taken out (giving `k1`) and
/// its focus cleared (giving `src`): its rows go into the shown sheet after
/// row `at_row` (see `rows_spliced`), then the rows are drawn again with the
/// tab line and the bottom line.
pub open spec fn rows_spliced_shown(s0: WinInfo, k1: Csvs, src: Cells, at_row: usize, s3: WinInfo, k3: Csvs) -> bool {
    let d = k1.contexts@[k1.handle as int].cells;
    if src.columns@.len() == 0 {
        s3.request is Abort
    } else {
        let nr = src.columns@[0].shown();
        let st = at_row + 1;
        let l = src_left(src.columns@, src.header@, d.header@, d.columns@.len() as int).0.len();
        if at_row + 1 + nr > usize::MAX || src.header@.len() != src.columns@.len() || d.header@.len() < d.columns@.len()
            || !splice_rows_all_ok(d, src, st as nat, s0.num_rows as nat, nr) || s0.num_rows + nr > usize::MAX / 16
            || s0.num_cols + l > usize::MAX / 16 {
            s3.request is Abort
        } else {
            exists|d2: Cells, s2: WinInfo, d3: Cells|
                {
                    &&& #[trigger] rows_spliced(d, src, st as nat, s0.num_rows as nat, nr, d2)
                    &&& #[trigger] crate::render::rows_drawn(
                        WinInfo { num_rows: (s0.num_rows + nr) as usize, num_cols: (s0.num_cols + l) as usize, ..s0 },
                        d2,
                        s2,
                        d3,
                    )
                    &&& tabs_and_bottom(s2, k1, d3, s3, k3)
                }
        }
    }
}

/// What `splice_rows` does, from the window `win0` to `win1`.
pub open spec fn splice_rows_outcome(win0: WinInfo, con_id: usize, at_row: usize, ks0: Csvs, win1: WinInfo, ks1: Csvs) -> bool {
    &&& con_id >= ks0.contexts@.len() ==> win1.request is Abort
    &&& con_id < ks0.contexts@.len() ==> ({
        let src0 = ks0.contexts@[con_id as int].cells;
        exists|k1: Csvs|
            {
                &&& #[trigger] context_removed(ks0, k1, con_id as int)
                &&& if k1.handle >= k1.contexts@.len() || !src0.has_cell(src0.w_cell.0, src0.w_cell.1) {
                    win1.request is Abort
                } else {
                    exists|src: Cells|
                        #[trigger] crate::commands::focus_cleared(src0, src) && rows_spliced_shown(
                            win0,
                            k1,
                            src,
                            at_row,
                            win1,
                            ks1,
                        )
                }
            }
    })
}

impl WinInfo {
    /// Takes sheet `con_id` out of the open sheets and puts its rows into the
    /// shown sheet after row `at_row`, column by column by name; columns with
    /// names the shown sheet lacks are added at its end.
    #[verifier::rlimit(100)]
    #[verifier::loop_isolation(false)]
    pub fn splice_rows(&mut self, con_id: usize, at_row: usize, csvs: &mut Csvs)
        requires
            old(self).wf(),
            !(old(self).request is Abort),
            sheets_wf(*old(csvs)),
        ensures
            final(self).wf(),
            splice_rows_outcome(*old(self), con_id, at_row, *old(csvs), *final(self), *final(csvs)),
    {
        if con_id >= csvs.contexts.len() {
            self.abort("removal index should be < len");
            return;
        }
        let ghost src0 = csvs.contexts@[con_id as int].cells;
        let mut src_con = csvs.remove_context(con_id);
        let ghost k1 = *csvs;
        assert(context_removed(*old(csvs), k1, con_id as int));
        if csvs.handle >= csvs.contexts.len() {
            self.abort("index out of bounds");
            return;
        }
        let src = src_con.cells();
        self.unfocus(src);
        if self.is_aborted() {
            return;
        }
        let ghost s1 = *src;
        assert(crate::commands::focus_cleared(src0, s1));
        proof {
            let h = k1.handle as int;
            let j = if h < con_id { h } else { h + 1 };
            assert(old(csvs).contexts@[j].cells.wf());
            assert(k1.contexts@[h].cells == old(csvs).contexts@[j].cells);
        }
        let dest = csvs.get_cells();
        if src.columns.len() == 0 {
            self.abort("index out of bounds");
            return;
        }
        let nr = src.columns[0].len();
        if at_row == usize::MAX || at_row + 1 > usize::MAX - nr || src.header.len() != src.columns.len()
            || dest.header.len() < dest.columns.len() {
            self.abort("index out of bounds");
            return;
        }
        let st = at_row + 1;
        let win = self.num_rows;
        let n0 = dest.columns.len();
        let ghost d = *dest;
        let ghost l = src_left(s1.columns@, s1.header@, d.header@, d.columns@.len() as int).0.len();
        if !dest.splice_rows_from(src, st, win, nr) {
            self.abort("index out of bounds");
            return;
        }
        let ghost d2 = *dest;
        let added = dest.columns.len() - n0;
        assert(added == l);
        if nr > usize::MAX / 16 || self.num_rows > usize::MAX / 16 - nr || added > usize::MAX / 16 || self.num_cols
            > usize::MAX / 16 - added {
            self.abort("attempt to add with overflow");
            return;
        }
        self.num_rows = self.num_rows + nr;
        self.num_cols = self.num_cols + added;
        let ghost s1w = *self;
        self.draw_rows(dest);
        let ghost s2 = *self;
        let ghost d3 = *dest;
        let ghost k2 = *csvs;
        assert(shown_sheet_set(k1, d3, k2));
        if self.is_aborted() {
            assert(crate::render::rows_drawn(s1w, d2, s2, d3));
            return;
        }
        self.print_context(csvs);
        let ghost s4 = *self;
        assert(context_printed(s2, k2, s4));
        if self.is_aborted() {
            assert(crate::render::rows_drawn(s1w, d2, s2, d3));
            return;
        }
        self.draw_focused_content();
        let ghost m2 = *self;
        self.flush();
        assert(crate::terminal::bottom_drawn(s4, m2));
        assert(crate::render::rows_drawn(s1w, d2, s2, d3));
    }
}

} // verus!

//! The command line typed after `:`: how its words are read into a command
//! (or an error), and how the command is run.
use vstd::prelude::*;

use crate::cells::{Cells, Csvs};
use crate::cmd_err::CmdErr;
use crate::sort::Sort;
use crate::terminal::{Request, SigFlag, WinInfo};

verus! {

/// A command read from the command line, with the words it takes.
pub enum Cmd<'a> {
    Quit,
    ShowColName,
    RenameCol(&'a str),
    FindCol(&'a str),
    ColCount,
    MoveCols(&'a str, &'a str),
    FindValue(&'a str),
    NewCol(&'a str),
    RemoveCol,
    GroupCols(&'a str),
    UniqueValues,
    SortCol(Sort),
    RevertCol,
    FillNa(&'a str),
    Replace(&'a str, &'a str),
    SumCol,
    ColDiff(&'a str),
    RowCount,
    InsertRows(usize),
    DeleteRow,
    MoveRows(&'a str, &'a str),
    GotoRow(&'a str),
    RowNum,
    SumRow,
    SortBy(&'a str, Sort),
    SiftBy(&'a str),
    RevertSheet,
    SliceCols(&'a str),
    SliceRows(&'a str),
    SpliceCols(usize),
    SpliceRows(usize),
}

/// What reading a command line gives: a command, an error to show, or a
/// panic.
pub enum Parsed<'a> {
    Run(Cmd<'a>),
    Fail(CmdErr<'a>),
    Panic,
}

/// Word `i` of `t`, if there is one.
pub open spec fn word<'a>(t: Seq<&'a str>, i: int) -> Option<&'a str> {
    if 0 <= i < t.len() {
        Some(t[i])
    } else {
        None
    }
}

/// Whether the word `w` is `a` or `b`.
pub open spec fn is_either(w: &str, a: &str, b: &str) -> bool {
    w@ == a@ || w@ == b@
}

/// The sort order a word names.
pub open spec fn dir_of(w: &str) -> Option<Sort> {
    if w@ == "a"@ {
        Some(Sort::AscAlph)
    } else if w@ == "r"@ || w@ == "ar"@ {
        Some(Sort::DescAlph)
    } else if w@ == "n"@ {
        Some(Sort::AscNum)
    } else if w@ == "nr"@ {
        Some(Sort::DescNum)
    } else {
        None
    }
}

/// `cn`: show, rename or find a column name.
pub open spec fn cn_of<'a>(t: Seq<&'a str>) -> Parsed<'a> {
    match word(t, 1) {
        None => Parsed::Run(Cmd::ShowColName),
        Some(spec) => if spec@ == "to"@ {
            match word(t, 2) {
                None => Parsed::Fail(CmdErr::MissingName(spec)),
                Some(name) => Parsed::Run(Cmd::RenameCol(name)),
            }
        } else if is_either(spec, "f", "find") {
            match word(t, 2) {
                None => Parsed::Fail(CmdErr::MissingName(spec)),
                Some(name) => Parsed::Run(Cmd::FindCol(name)),
            }
        } else {
            Parsed::Fail(CmdErr::UnknownSpec(spec))
        },
    }
}

/// A subcommand that needs one word more, failing with `missing` without it.
pub open spec fn with_arg<'a>(t: Seq<&'a str>, missing: CmdErr<'a>, f: spec_fn(&'a str) -> Cmd<'a>) -> Parsed<'a> {
    match word(t, 2) {
        None => Parsed::Fail(missing),
        Some(a) => Parsed::Run(f(a)),
    }
}

/// `col`: the whole-column commands.
pub open spec fn col_of<'a>(t: Seq<&'a str>) -> Parsed<'a> {
    match word(t, 1) {
        None => Parsed::Fail(CmdErr::MissingSubCmd(t[0])),
        Some(sub) => if is_either(sub, "c", "count") {
            Parsed::Run(Cmd::ColCount)
        } else if is_either(sub, "mv", "move") {
            match word(t, 2) {
                None => Parsed::Fail(CmdErr::MissingRange(sub)),
                Some(range) => match word(t, 3) {
                    None => Parsed::Fail(CmdErr::MissingLocation(sub)),
                    Some(loc) => Parsed::Run(Cmd::MoveCols(range, loc)),
                },
            }
        } else if is_either(sub, "f", "find") {
            with_arg(t, CmdErr::MissingValue(sub), |a: &'a str| Cmd::FindValue(a))
        } else if is_either(sub, "n", "new") {
            with_arg(t, CmdErr::MissingName(sub), |a: &'a str| Cmd::NewCol(a))
        } else if is_either(sub, "rm", "remove") {
            match word(t, 2) {
                Some(_) => Parsed::Fail(CmdErr::TooManyArgs(sub)),
                None => Parsed::Run(Cmd::RemoveCol),
            }
        } else if is_either(sub, "g", "group") {
            with_arg(t, CmdErr::MissingList(sub), |a: &'a str| Cmd::GroupCols(a))
        } else if is_either(sub, "u", "unique") {
            Parsed::Run(Cmd::UniqueValues)
        } else if is_either(sub, "s", "sort") {
            match word(t, 2) {
                None => Parsed::Run(Cmd::SortCol(Sort::AscAlph)),
                Some(spec) => match dir_of(spec) {
                    Some(d) => Parsed::Run(Cmd::SortCol(d)),
                    None => Parsed::Fail(CmdErr::UnknownSpec(spec)),
                },
            }
        } else if is_either(sub, "rv", "revert") {
            Parsed::Run(Cmd::RevertCol)
        } else if is_either(sub, "fn", "fillna") {
            with_arg(t, CmdErr::MissingValue(sub), |a: &'a str| Cmd::FillNa(a))
        } else if is_either(sub, "r", "replace") {
            match word(t, 2) {
                None => Parsed::Fail(CmdErr::MissingValue(sub)),
                Some(targ) => match word(t, 3) {
                    None => Parsed::Fail(CmdErr::MissingValue(sub)),
                    Some(new) => Parsed::Run(Cmd::Replace(targ, new)),
                },
            }
        } else if is_either(sub, "a", "add") {
            Parsed::Run(Cmd::SumCol)
        } else if is_either(sub, "d", "diff") {
            with_arg(t, CmdErr::MissingValue(sub), |a: &'a str| Cmd::ColDiff(a))
        } else {
            Parsed::Fail(CmdErr::InvalidSubCmd(sub))
        },
    }
}

/// `row`: the row commands.
pub open spec fn row_of<'a>(t: Seq<&'a str>) -> Parsed<'a> {
    match word(t, 1) {
        None => Parsed::Fail(CmdErr::MissingSubCmd(t[0])),
        Some(sub) => if is_either(sub, "c", "count") {
            Parsed::Run(Cmd::RowCount)
        } else if is_either(sub, "i", "insert") {
            match word(t, 2) {
                None => Parsed::Run(Cmd::InsertRows(1)),
                Some(num) => match crate::text::parse_usize(num@) {
                    Some(v) => Parsed::Run(Cmd::InsertRows(v as usize)),
                    None => Parsed::Fail(CmdErr::InvalidDec(num)),
                },
            }
        } else if is_either(sub, "d", "delete") {
            Parsed::Run(Cmd::DeleteRow)
        } else if is_either(sub, "mv", "move") {
            match word(t, 2) {
                None => Parsed::Fail(CmdErr::MissingRange(sub)),
                Some(range) => match word(t, 3) {
                    None => Parsed::Fail(CmdErr::MissingTarget(sub)),
                    Some(target) => Parsed::Run(Cmd::MoveRows(range, target)),
                },
            }
        } else if is_either(sub, "g", "goto") {
            with_arg(t, CmdErr::MissingLocation(sub), |a: &'a str| Cmd::GotoRow(a))
        } else if is_either(sub, "n", "num") {
            Parsed::Run(Cmd::RowNum)
        } else if is_either(sub, "a", "add") {
            Parsed::Run(Cmd::SumRow)
        } else {
            Parsed::Fail(CmdErr::InvalidSubCmd(t[0]))
        },
    }
}

/// The sheet a `splice` names by its number `r`, checked against the shown
/// sheet `handle` and the `ncons` open sheets.
pub open spec fn con_id_of<'a>(r: &'a str, handle: usize, ncons: usize) -> Result<usize, Parsed<'a>> {
    match crate::parse::dec_read(r@) {
        crate::parse::DecOut::Val(v) => if handle == v {
            Err(Parsed::Fail(CmdErr::SameCon))
        } else if v > ncons {
            Err(Parsed::Fail(CmdErr::InvalidConId(r)))
        } else {
            Ok(v as usize)
        },
        crate::parse::DecOut::BadHex(c) => Err(Parsed::Fail(CmdErr::InvalidHex(c))),
        crate::parse::DecOut::BadDec => Err(Parsed::Fail(CmdErr::InvalidDec(r))),
        crate::parse::DecOut::Panic => Err(Parsed::Panic),
    }
}

/// `sh`: the whole-sheet commands.
pub open spec fn sheet_of<'a>(t: Seq<&'a str>, handle: usize, ncons: usize) -> Parsed<'a> {
    let tok = t[0];
    match word(t, 1) {
        None => Parsed::Fail(CmdErr::MissingSubCmd(tok)),
        Some(sub) => if is_either(sub, "s", "sortby") {
            match word(t, 2) {
                None => Parsed::Fail(CmdErr::MissingName(tok)),
                Some(col) => match word(t, 3) {
                    None => Parsed::Run(Cmd::SortBy(col, Sort::AscAlph)),
                    Some(dir) => match dir_of(dir) {
                        Some(d) => Parsed::Run(Cmd::SortBy(col, d)),
                        None => Parsed::Fail(CmdErr::InvalidArg(dir)),
                    },
                },
            }
        } else if is_either(sub, "sf", "siftby") {
            with_arg(t, CmdErr::MissingName(tok), |a: &'a str| Cmd::SiftBy(a))
        } else if is_either(sub, "rv", "revert") {
            Parsed::Run(Cmd::RevertSheet)
        } else if is_either(sub, "sl", "slice") {
            match word(t, 2) {
                None => Parsed::Fail(CmdErr::MissingValue("slice {'col' or 'row'}")),
                Some(or) => match word(t, 3) {
                    None => Parsed::Fail(CmdErr::MissingRange("slice")),
                    Some(range) => if is_either(or, "c", "cols") {
                        Parsed::Run(Cmd::SliceCols(range))
                    } else if is_either(or, "r", "rows") {
                        Parsed::Run(Cmd::SliceRows(range))
                    } else {
                        Parsed::Fail(CmdErr::InvalidArg(or))
                    },
                },
            }
        } else if is_either(sub, "sp", "splice") {
            match word(t, 2) {
                None => Parsed::Fail(CmdErr::MissingValue("splice {'col' or 'row'}")),
                Some(or) => match word(t, 3) {
                    Some(r) => if r@.len() == 0 {
                        Parsed::Fail(CmdErr::MissingConId("splice"))
                    } else {
                        match con_id_of(r, handle, ncons) {
                            Err(p) => p,
                            Ok(id) => if is_either(or, "c", "cols") {
                                Parsed::Run(Cmd::SpliceCols(id))
                            } else if is_either(or, "r", "rows") {
                                Parsed::Run(Cmd::SpliceRows(id))
                            } else {
                                Parsed::Fail(CmdErr::InvalidArg(or))
                            },
                        }
                    },
                    None => Parsed::Fail(CmdErr::MissingConId("splice")),
                },
            }
        } else {
            Parsed::Fail(CmdErr::InvalidSubCmd(sub))
        },
    }
}

/// The command the words `t` of a command line name.
pub open spec fn command_of<'a>(t: Seq<&'a str>, handle: usize, ncons: usize) -> Parsed<'a> {
    if t.len() == 0 {
        Parsed::Panic
    } else {
        let w = t[0];
        if is_either(w, "q", "quit") {
            Parsed::Run(Cmd::Quit)
        } else if w@ == "cn"@ {
            cn_of(t)
        } else if w@ == "col"@ {
            col_of(t)
        } else if w@ == "row"@ {
            row_of(t)
        } else if is_either(w, "sh", "sheet") {
            sheet_of(t, handle, ncons)
        } else {
            Parsed::Fail(CmdErr::InvalidCommand(w))
        }
    }
}

/// Whether `w` is `a` or `b`.
fn either(w: &str, a: &str, b: &str) -> (r: bool)
    ensures
        r == is_either(w, a, b),
{
    crate::text::same_text(w, a) || crate::text::same_text(w, b)
}

/// The sort order a word names.
fn read_dir(w: &str) -> (r: Option<Sort>)
    ensures
        r == dir_of(w),
{
    if crate::text::same_text(w, "a") {
        Some(Sort::AscAlph)
    } else if crate::text::same_text(w, "r") || crate::text::same_text(w, "ar") {
        Some(Sort::DescAlph)
    } else if crate::text::same_text(w, "n") {
        Some(Sort::AscNum)
    } else if crate::text::same_text(w, "nr") {
        Some(Sort::DescNum)
    } else {
        None
    }
}

/// Word `i` of `t`, if there is one.
fn word_at<'a>(t: &Vec<&'a str>, i: usize) -> (r: Option<&'a str>)
    ensures
        r == word(t@, i as int),
{
    if i < t.len() {
        Some(t[i])
    } else {
        None
    }
}

/// Reads a `cn` command line.
pub fn cn_cmd<'a>(t: &Vec<&'a str>) -> (r: Parsed<'a>)
    ensures
        r == cn_of(t@),
{
    match word_at(t, 1) {
        None => Parsed::Run(Cmd::ShowColName),
        Some(spec) => {
            if crate::text::same_text(spec, "to") {
                match word_at(t, 2) {
                    None => Parsed::Fail(CmdErr::MissingName(spec)),
                    Some(name) => Parsed::Run(Cmd::RenameCol(name)),
                }
            } else if either(spec, "f", "find") {
                match word_at(t, 2) {
                    None => Parsed::Fail(CmdErr::MissingName(spec)),
                    Some(name) => Parsed::Run(Cmd::FindCol(name)),
                }
            } else {
                Parsed::Fail(CmdErr::UnknownSpec(spec))
            }
        },
    }
}

/// Reads a `col` command line.
pub fn col_cmd<'a>(t: &Vec<&'a str>) -> (r: Parsed<'a>)
    requires
        t@.len() > 0,
    ensures
        r == col_of(t@),
{
    let sub = match word_at(t, 1) {
        None => {
            return Parsed::Fail(CmdErr::MissingSubCmd(t[0]));
        },
        Some(s) => s,
    };
    let a2 = word_at(t, 2);
    if either(sub, "c", "count") {
        Parsed::Run(Cmd::ColCount)
    } else if either(sub, "mv", "move") {
        match a2 {
            None => Parsed::Fail(CmdErr::MissingRange(sub)),
            Some(range) => match word_at(t, 3) {
                None => Parsed::Fail(CmdErr::MissingLocation(sub)),
                Some(loc) => Parsed::Run(Cmd::MoveCols(range, loc)),
            },
        }
    } else if either(sub, "f", "find") {
        match a2 {
            None => Parsed::Fail(CmdErr::MissingValue(sub)),
            Some(a) => Parsed::Run(Cmd::FindValue(a)),
        }
    } else if either(sub, "n", "new") {
        match a2 {
            None => Parsed::Fail(CmdErr::MissingName(sub)),
            Some(a) => Parsed::Run(Cmd::NewCol(a)),
        }
    } else if either(sub, "rm", "remove") {
        match a2 {
            Some(_) => Parsed::Fail(CmdErr::TooManyArgs(sub)),
            None => Parsed::Run(Cmd::RemoveCol),
        }
    } else if either(sub, "g", "group") {
        match a2 {
            None => Parsed::Fail(CmdErr::MissingList(sub)),
            Some(a) => Parsed::Run(Cmd::GroupCols(a)),
        }
    } else if either(sub, "u", "unique") {
        Parsed::Run(Cmd::UniqueValues)
    } else if either(sub, "s", "sort") {
        match a2 {
            None => Parsed::Run(Cmd::SortCol(Sort::AscAlph)),
            Some(spec) => match read_dir(spec) {
                Some(d) => Parsed::Run(Cmd::SortCol(d)),
                None => Parsed::Fail(CmdErr::UnknownSpec(spec)),
            },
        }
    } else if either(sub, "rv", "revert") {
        Parsed::Run(Cmd::RevertCol)
    } else if either(sub, "fn", "fillna") {
        match a2 {
            None => Parsed::Fail(CmdErr::MissingValue(sub)),
            Some(a) => Parsed::Run(Cmd::FillNa(a)),
        }
    } else if either(sub, "r", "replace") {
        match a2 {
            None => Parsed::Fail(CmdErr::MissingValue(sub)),
            Some(targ) => match word_at(t, 3) {
                None => Parsed::Fail(CmdErr::MissingValue(sub)),
                Some(new) => Parsed::Run(Cmd::Replace(targ, new)),
            },
        }
    } else if either(sub, "a", "add") {
        Parsed::Run(Cmd::SumCol)
    } else if either(sub, "d", "diff") {
        match a2 {
            None => Parsed::Fail(CmdErr::MissingValue(sub)),
            Some(a) => Parsed::Run(Cmd::ColDiff(a)),
        }
    } else {
        Parsed::Fail(CmdErr::InvalidSubCmd(sub))
    }
}

/// Reads a `row` command line.
pub fn row_cmd<'a>(t: &Vec<&'a str>) -> (r: Parsed<'a>)
    requires
        t@.len() > 0,
    ensures
        r == row_of(t@),
{
    let sub = match word_at(t, 1) {
        None => {
            return Parsed::Fail(CmdErr::MissingSubCmd(t[0]));
        },
        Some(s) => s,
    };
    let a2 = word_at(t, 2);
    if either(sub, "c", "count") {
        Parsed::Run(Cmd::RowCount)
    } else if either(sub, "i", "insert") {
        match a2 {
            None => Parsed::Run(Cmd::InsertRows(1)),
            Some(num) => {
                let v = crate::text::to_chars(num);
                match crate::text::parse_usize_chars(&v) {
                    Some(n) => Parsed::Run(Cmd::InsertRows(n)),
                    None => Parsed::Fail(CmdErr::InvalidDec(num)),
                }
            },
        }
    } else if either(sub, "d", "delete") {
        Parsed::Run(Cmd::DeleteRow)
    } else if either(sub, "mv", "move") {
        match a2 {
            None => Parsed::Fail(CmdErr::MissingRange(sub)),
            Some(range) => match word_at(t, 3) {
                None => Parsed::Fail(CmdErr::MissingTarget(sub)),
                Some(target) => Parsed::Run(Cmd::MoveRows(range, target)),
            },
        }
    } else if either(sub, "g", "goto") {
        match a2 {
            None => Parsed::Fail(CmdErr::MissingLocation(sub)),
            Some(a) => Parsed::Run(Cmd::GotoRow(a)),
        }
    } else if either(sub, "n", "num") {
        Parsed::Run(Cmd::RowNum)
    } else if either(sub, "a", "add") {
        Parsed::Run(Cmd::SumRow)
    } else {
        Parsed::Fail(CmdErr::InvalidSubCmd(t[0]))
    }
}

/// Reads the sheet number of a `splice`.
fn read_con_id<'a>(r: &'a str, handle: usize, ncons: usize) -> (res: Result<usize, Parsed<'a>>)
    ensures
        res == con_id_of(r, handle, ncons),
{
    match crate::parse::str_to_dec(r) {
        None => Err(Parsed::Panic),
        Some(Err(e)) => Err(Parsed::Fail(e)),
        Some(Ok(v)) => {
            if handle == v {
                Err(Parsed::Fail(CmdErr::SameCon))
            } else if v > ncons {
                Err(Parsed::Fail(CmdErr::InvalidConId(r)))
            } else {
                Ok(v)
            }
        },
    }
}

/// Reads a `sh` command line; `handle` is the shown sheet and `ncons` the
/// number of open sheets.
pub fn sheet_cmd<'a>(t: &Vec<&'a str>, handle: usize, ncons: usize) -> (r: Parsed<'a>)
    requires
        t@.len() > 0,
    ensures
        r == sheet_of(t@, handle, ncons),
{
    let tok = t[0];
    let sub = match word_at(t, 1) {
        None => {
            return Parsed::Fail(CmdErr::MissingSubCmd(tok));
        },
        Some(s) => s,
    };
    let a2 = word_at(t, 2);
    let a3 = word_at(t, 3);
    if either(sub, "s", "sortby") {
        match a2 {
            None => Parsed::Fail(CmdErr::MissingName(tok)),
            Some(col) => match a3 {
                None => Parsed::Run(Cmd::SortBy(col, Sort::AscAlph)),
                Some(dir) => match read_dir(dir) {
                    Some(d) => Parsed::Run(Cmd::SortBy(col, d)),
                    None => Parsed::Fail(CmdErr::InvalidArg(dir)),
                },
            },
        }
    } else if either(sub, "sf", "siftby") {
        match a2 {
            None => Parsed::Fail(CmdErr::MissingName(tok)),
            Some(a) => Parsed::Run(Cmd::SiftBy(a)),
        }
    } else if either(sub, "rv", "revert") {
        Parsed::Run(Cmd::RevertSheet)
    } else if either(sub, "sl", "slice") {
        match a2 {
            None => Parsed::Fail(CmdErr::MissingValue("slice {'col' or 'row'}")),
            Some(or) => match a3 {
                None => Parsed::Fail(CmdErr::MissingRange("slice")),
                Some(range) => {
                    if either(or, "c", "cols") {
                        Parsed::Run(Cmd::SliceCols(range))
                    } else if either(or, "r", "rows") {
                        Parsed::Run(Cmd::SliceRows(range))
                    } else {
                        Parsed::Fail(CmdErr::InvalidArg(or))
                    }
                },
            },
        }
    } else if either(sub, "sp", "splice") {
        match a2 {
            None => Parsed::Fail(CmdErr::MissingValue("splice {'col' or 'row'}")),
            Some(or) => match a3 {
                Some(r) => {
                    if r.unicode_len() == 0 {
                        Parsed::Fail(CmdErr::MissingConId("splice"))
                    } else {
                        match read_con_id(r, handle, ncons) {
                            Err(p) => p,
                            Ok(id) => {
                                if either(or, "c", "cols") {
                                    Parsed::Run(Cmd::SpliceCols(id))
                                } else if either(or, "r", "rows") {
                                    Parsed::Run(Cmd::SpliceRows(id))
                                } else {
                                    Parsed::Fail(CmdErr::InvalidArg(or))
                                }
                            },
                        }
                    }
                },
                None => Parsed::Fail(CmdErr::MissingConId("splice")),
            },
        }
    } else {
        Parsed::Fail(CmdErr::InvalidSubCmd(sub))
    }
}

/// Reads a command line split into words.
pub fn parse_command<'a>(t: &Vec<&'a str>, handle: usize, ncons: usize) -> (r: Parsed<'a>)
    ensures
        r == command_of(t@, handle, ncons),
{
    if t.len() == 0 {
        return Parsed::Panic;
    }
    let w = t[0];
    if either(w, "q", "quit") {
        Parsed::Run(Cmd::Quit)
    } else if crate::text::same_text(w, "cn") {
        cn_cmd(t)
    } else if crate::text::same_text(w, "col") {
        col_cmd(t)
    } else if crate::text::same_text(w, "row") {
        row_cmd(t)
    } else if either(w, "sh", "sheet") {
        sheet_cmd(t, handle, ncons)
    } else {
        Parsed::Fail(CmdErr::InvalidCommand(w))
    }
}

/// Setting the shown sheet of well-formed sheets to a well-formed sheet
/// keeps them well formed.
pub(crate) proof fn lemma_sheets_wf_set(k0: Csvs, k1: Csvs)
    requires
        crate::sheet_ops::sheets_wf(k0),
        k1.handle == k0.handle,
        k1.contexts@.len() == k0.contexts@.len(),
        forall|i: int| 0 <= i < k0.contexts@.len() && i != k0.handle ==> #[trigger] k1.contexts@[i] == k0.contexts@[i],
        k1.contexts@[k1.handle as int].cells.wf(),
    ensures
        crate::sheet_ops::sheets_wf(k1),
{
    assert forall|i: int| 0 <= i < k1.contexts@.len() implies (#[trigger] k1.contexts@[i]).cells.wf() by {
        if i != k0.handle {
            assert(k1.contexts@[i] == k0.contexts@[i]);
        }
    }
}

/// What running `cmd` on the shown sheet does, as the function that runs it
/// states.
pub open spec fn on_sheet_outcome(cmd: Cmd, s0: WinInfo, c0: Cells, s1: WinInfo, c1: Cells) -> bool {
    match cmd {
        Cmd::ShowColName => crate::commands::show_column_name_outcome(s0, c0, s1, c1),
        Cmd::RenameCol(name) => crate::commands::change_col_name_outcome(s0, c0, name, s1, c1),
        Cmd::FindCol(name) => crate::commands::find_column_outcome(s0, c0, name, s1, c1),
        Cmd::MoveCols(range, loc) => crate::col_ops::move_columns_outcome(s0, c0, range, loc, s1, c1),
        Cmd::FindValue(v) => crate::find_ops::find_value_in_col_outcome(s0, c0, v, s1, c1),
        Cmd::NewCol(name) => crate::col_ops::new_column_outcome(s0, c0, name, s1, c1),
        Cmd::GroupCols(list) => crate::col_ops::group_columns_outcome(s0, c0, list, s1, c1),
        Cmd::UniqueValues => crate::col_ops::show_unique_column_values_outcome(s0, c0, s1, c1),
        Cmd::SortCol(d) => crate::commands::sort_focused_column_outcome(s0, c0, d, s1, c1),
        Cmd::RevertCol => crate::commands::revert_focused_column_outcome(s0, c0, s1, c1),
        Cmd::FillNa(v) => crate::commands::col_fillna_outcome(s0, c0, v, s1, c1),
        Cmd::Replace(t, n) => crate::commands::replace_in_col_outcome(s0, c0, t, n, s1, c1),
        Cmd::ColDiff(o) => crate::find_ops::col_diff_outcome(s0, c0, o, s1, c1),
        Cmd::InsertRows(n) => crate::row_ops::insert_row_outcome(s0, c0, n, s1, c1),
        Cmd::MoveRows(r, t) => crate::row_ops::move_rows_outcome(s0, c0, r, t, s1, c1),
        Cmd::GotoRow(l) => crate::commands::goto_row_outcome(s0, c0, l, s1, c1),
        Cmd::SortBy(c, d) => crate::commands::sort_by_outcome(s0, c0, c, d, s1, c1),
        Cmd::SiftBy(c) => crate::col_ops::sift_by_outcome(s0, c0, c, s1, c1),
        Cmd::RevertSheet => crate::commands::revert_sheet_outcome(s0, c0, s1, c1),
        _ => true,
    }
}

/// What running `cmd` does to the window `s0` and the sheets `k0`, as the
/// function that runs it states.
pub open spec fn cmd_outcome(cmd: Cmd, s0: WinInfo, k0: Csvs, s1: WinInfo, k1: Csvs) -> bool {
    let c0 = k0.contexts@[k0.handle as int].cells;
    let c1 = k1.contexts@[k1.handle as int].cells;
    match cmd {
        Cmd::Quit => s1 == s0 && k1 == k0,
        Cmd::SliceCols(range) => crate::sheet_ops::slice_cols_outcome(s0, range, k0, s1, k1),
        Cmd::SliceRows(range) => crate::sheet_ops::slice_rows_outcome(s0, range, k0, s1, k1),
        Cmd::SpliceCols(id) => if s0.w_pointer == usize::MAX {
            s1.request is Abort
        } else {
            crate::sheet_ops::splice_cols_outcome(s0, id, (s0.w_pointer + 1) as usize, k0, s1, k1)
        },
        Cmd::SpliceRows(id) => crate::sheet_ops::splice_rows_outcome(s0, id, s0.h_pointer, k0, s1, k1),
        Cmd::ColCount => crate::commands::print_col_count_outcome(s0, s1) && k1 == k0,
        Cmd::RowCount => crate::commands::print_row_count_outcome(s0, s1) && k1 == k0,
        Cmd::RowNum => crate::commands::show_row_num_outcome(s0, s1) && k1 == k0,
        Cmd::SumCol => s1 == (WinInfo { request: Request::SumColumn(s0.w_pointer), ..s0 }) && k1 == k0,
        Cmd::SumRow => s1 == (WinInfo { request: Request::SumRow(s0.h_pointer), ..s0 }) && k1 == k0,
        Cmd::DeleteRow => crate::row_ops::delete_row_outcome(s0, s1) && k1 == k0,
        Cmd::RemoveCol => crate::col_ops::remove_column_outcome(s0, &c0, s1) && k1 == k0,
        _ => crate::sheet_ops::shown_sheet_set(k0, c1, k1) && on_sheet_outcome(cmd, s0, c0, s1, c1),
    }
}

impl WinInfo {
    /// Runs a command read from the command line (all but `Quit`).
    #[verifier::rlimit(100)]
    pub fn run_command(&mut self, cmd: Cmd, csvs: &mut Csvs)
        requires
            old(self).wf(),
            !(old(self).request is Abort),
            crate::sheet_ops::sheets_wf(*old(csvs)),
        ensures
            final(self).wf(),
            !(final(self).request is Abort) ==> crate::sheet_ops::sheets_wf(*final(csvs)),
            cmd_outcome(cmd, *old(self), *old(csvs), *final(self), *final(csvs)),
    {
        let ghost k0 = *csvs;
        proof {
            assert(k0.contexts@[k0.handle as int].cells.wf());
        }
        match cmd {
            Cmd::Quit => {},
            Cmd::SliceCols(range) => {
                self.slice_cols(range, csvs);
            },
            Cmd::SliceRows(range) => {
                self.slice_rows(range, csvs);
            },
            Cmd::SpliceCols(id) => {
                if self.w_pointer == usize::MAX {
                    self.abort("attempt to add with overflow");
                    return;
                }
                self.splice_cols(id, self.w_pointer + 1, csvs);
            },
            Cmd::SpliceRows(id) => {
                self.splice_rows(id, self.h_pointer, csvs);
            },
            Cmd::ColCount => {
                self.print_col_count();
            },
            Cmd::RowCount => {
                self.print_row_count();
            },
            Cmd::RowNum => {
                self.show_row_num();
            },
            Cmd::SumCol => {
                self.request = Request::SumColumn(self.w_pointer);
            },
            Cmd::SumRow => {
                self.request = Request::SumRow(self.h_pointer);
            },
            Cmd::DeleteRow => {
                self.delete_row();
            },
            Cmd::RemoveCol => {
                let h = csvs.handle;
                self.remove_column(&csvs.contexts[h].cells);
            },
            _ => {
                let cells = csvs.get_cells();
                self.run_on_sheet(cmd, cells);
                proof {
                    if !(self.request is Abort) {
                        lemma_sheets_wf_set(k0, *csvs);
                    }
                }
            },
        }
    }

    /// Runs a command that works on the shown sheet alone.
    #[verifier::rlimit(100)]
    fn run_on_sheet(&mut self, cmd: Cmd, cells: &mut crate::cells::Cells)
        requires
            old(self).wf(),
            !(old(self).request is Abort),
            old(cells).wf(),
        ensures
            final(self).wf(),
            !(final(self).request is Abort) ==> final(cells).wf(),
            on_sheet_outcome(cmd, *old(self), *old(cells), *final(self), *final(cells)),
    {
        match cmd {
            Cmd::ShowColName => self.show_column_name(cells),
            Cmd::RenameCol(name) => self.change_col_name(cells, name),
            Cmd::FindCol(name) => self.find_column(cells, name),
            Cmd::MoveCols(range, loc) => self.move_columns(cells, range, loc),
            Cmd::FindValue(v) => self.find_value_in_col(cells, v),
            Cmd::NewCol(name) => self.new_column(cells, name),
            Cmd::GroupCols(list) => self.group_columns(cells, list),
            Cmd::UniqueValues => self.show_unique_column_values(cells),
            Cmd::SortCol(d) => self.sort_focused_column(cells, d),
            Cmd::RevertCol => self.revert_focused_column(cells),
            Cmd::FillNa(v) => self.col_fillna(cells, v),
            Cmd::Replace(t, n) => self.replace_in_col(cells, t, n),
            Cmd::ColDiff(o) => self.col_diff(cells, o),
            Cmd::InsertRows(n) => self.insert_row(cells, n),
            Cmd::MoveRows(r, t) => self.move_rows(cells, r, t),
            Cmd::GotoRow(l) => self.goto_row(cells, l),
            Cmd::SortBy(c, d) => self.sort_by(cells, c, d),
            Cmd::SiftBy(c) => self.sift_by(cells, c),
            Cmd::RevertSheet => self.revert_sheet(cells),
            _ => {},
        }
    }
}

/// Whether `toks` are the words of the command line `line`.
pub open spec fn words_of<'a>(toks: Seq<&'a str>, line: Seq<char>) -> bool {
    &&& toks.len() == crate::parse::token_ranges(line, ' ').len()
    &&& forall|k: int| 0 <= k < toks.len() ==> (#[trigger] toks[k])@ == crate::parse::token_text(line, ' ', k)
}

/// What running the command line with the words `toks` did: a panic stops
/// the step, an error is shown, `quit` asks to quit, any other command ran
/// (see `run_command`).
pub open spec fn line_done<'a>(
    toks: Seq<&'a str>,
    s0: WinInfo,
    k0: Csvs,
    s1: WinInfo,
    k1: Csvs,
    r: SigFlag,
) -> bool {
    match command_of(toks, k0.handle, k0.contexts@.len() as usize) {
        Parsed::Panic => s1.request is Abort,
        Parsed::Fail(e) => crate::commands::reported(s0, e, s1) && k1 == k0 && r is Non,
        Parsed::Run(Cmd::Quit) => r is Quit && s1 == s0 && k1 == k0,
        Parsed::Run(c) => r is Non && cmd_outcome(c, s0, k0, s1, k1),
    }
}

impl WinInfo {
    /// Reads the command line `line` and runs its command.
    pub fn process_line<'a>(&mut self, line: &'a str, csvs: &mut Csvs) -> (r: SigFlag)
        requires
            old(self).wf(),
            !(old(self).request is Abort),
            crate::sheet_ops::sheets_wf(*old(csvs)),
        ensures
            final(self).wf(),
            !(final(self).request is Abort) ==> crate::sheet_ops::sheets_wf(*final(csvs)),
            !crate::parse::tokens_ok(line@, ' ') ==> final(self).request is Abort,
            crate::parse::tokens_ok(line@, ' ') ==> exists|toks: Seq<&'a str>|
                #[trigger] words_of(toks, line@) && line_done(toks, *old(self), *old(csvs), *final(self), *final(csvs), r),
    {
        let toks = match crate::parse::tokenize(line, ' ') {
            Some(t) => t,
            None => {
                self.abort("byte index is not a char boundary");
                return SigFlag::Non;
            },
        };
        assert(words_of(toks@, line@));
        let handle = csvs.handle;
        let n = csvs.num_contexts();
        match parse_command(&toks, handle, n) {
            Parsed::Panic => {
                self.abort("called `Result::unwrap()` on an `Err` value");
                SigFlag::Non
            },
            Parsed::Fail(e) => {
                self.report(&e);
                SigFlag::Non
            },
            Parsed::Run(Cmd::Quit) => SigFlag::Quit,
            Parsed::Run(c) => {
                self.run_command(c, csvs);
                SigFlag::Non
            },
        }
    }

    /// Reads the command line typed into the buffer and runs its command.
    pub fn process_command(&mut self, csvs: &mut Csvs) -> (r: SigFlag)
        requires
            old(self).wf(),
            !(old(self).request is Abort),
            crate::sheet_ops::sheets_wf(*old(csvs)),
        ensures
            final(self).wf(),
            !(final(self).request is Abort) ==> crate::sheet_ops::sheets_wf(*final(csvs)),
            !crate::parse::tokens_ok(old(self).write_buffer.text(), ' ') ==> final(self).request is Abort,
            crate::parse::tokens_ok(old(self).write_buffer.text(), ' ') ==> exists|toks: Seq<&str>|
                #[trigger] words_of(toks, old(self).write_buffer.text()) && line_done(
                    toks,
                    *old(self),
                    *old(csvs),
                    *final(self),
                    *final(csvs),
                    r,
                ),
    {
        let input = self.write_buffer.as_string();
        self.process_line(input.as_str(), csvs)
    }
}

} // verus!

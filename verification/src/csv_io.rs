//! The file format: splitting a file into lines and fields, column ids,
//! building a sheet from a file's text and writing a sheet back as text.
use vstd::prelude::*;

use crate::cells::{Cell, CellModel, Cells, Column};
use crate::text::{contains_chars, from_chars, push_range, to_chars, trim_chars};

verus! {

/// The letter for `d < 26`: `A` for 0 up to `Z` for 25.
pub open spec fn letter(d: nat) -> char {
    (65 + d) as char
}

/// The column id of column `n`: bijective base 26 with the letters `A`-`Z`
/// (`A`..`Z`, then `AA`..`AZ`, `BA`.., `ZZ`, then `AAA`..).
pub open spec fn base26(n: nat) -> Seq<char>
    decreases n,
{
    if n < 26 {
        seq![letter(n)]
    } else {
        proof {
            assert(n / 26 - 1 < n) by (nonlinear_arith)
                requires
                    n >= 26,
            ;
        }
        base26((n / 26 - 1) as nat).push(letter(n % 26))
    }
}

/// `(x >= 26) + (x >= 702) + ...`: one less than the number of letters of
/// the column id of `x`.
pub open spec fn id_range(x: nat) -> nat {
    (if x >= 26 {
        1nat
    } else {
        0
    }) + (if x >= 702 {
        1nat
    } else {
        0
    }) + (if x >= 18278 {
        1nat
    } else {
        0
    }) + (if x >= 475254 {
        1nat
    } else {
        0
    }) + (if x >= 12356630 {
        1nat
    } else {
        0
    }) + (if x >= 321272406 {
        1nat
    } else {
        0
    })
}

fn get_range_branchless(x: u32) -> (r: usize)
    ensures
        r == id_range(x as nat),
{
    (if x >= 26 {
        1usize
    } else {
        0
    }) + (if x >= 702 {
        1usize
    } else {
        0
    }) + (if x >= 18278 {
        1usize
    } else {
        0
    }) + (if x >= 475254 {
        1usize
    } else {
        0
    }) + (if x >= 12356630 {
        1usize
    } else {
        0
    }) + (if x >= 321272406 {
        1usize
    } else {
        0
    })
}

proof fn lemma_base26_len(n: nat)
    requires
        n <= u32::MAX,
    ensures
        base26(n).len() == id_range(n) + 1,
    decreases n,
{
    if n >= 26 {
        let m = (n / 26 - 1) as nat;
        assert(m < n) by (nonlinear_arith)
            requires
                n >= 26,
                m == n / 26 - 1,
        ;
        lemma_base26_len(m);
        assert(id_range(m) + 1 == id_range(n)) by (nonlinear_arith)
            requires
                n >= 26,
                m == n / 26 - 1,
                n <= u32::MAX,
        {
            assert(n >= 702 <==> m >= 26);
            assert(n >= 18278 <==> m >= 702);
            assert(n >= 475254 <==> m >= 18278);
            assert(n >= 12356630 <==> m >= 475254);
            assert(n >= 321272406 <==> m >= 12356630);
            assert(m < 321272406);
        }
    }
}

/// Law: different column numbers have different column ids.
pub proof fn lemma_base26_injective(a: nat, b: nat)
    requires
        base26(a) == base26(b),
    ensures
        a == b,
    decreases a + b,
{
    if a < 26 && b < 26 {
        assert(base26(a)[0] == letter(a));
        assert(base26(b)[0] == letter(b));
    } else if a >= 26 && b >= 26 {
        let ma = (a / 26 - 1) as nat;
        let mb = (b / 26 - 1) as nat;
        assert(base26(a).last() == letter(a % 26));
        assert(base26(b).last() == letter(b % 26));
        assert(a % 26 == b % 26);
        assert(base26(a).drop_last() == base26(ma));
        assert(base26(b).drop_last() == base26(mb));
        assert(ma < a && mb < b) by (nonlinear_arith)
            requires
                a >= 26,
                b >= 26,
                ma == a / 26 - 1,
                mb == b / 26 - 1,
        ;
        lemma_base26_injective(ma, mb);
        assert(a == b) by (nonlinear_arith)
            requires
                a >= 26,
                b >= 26,
                a / 26 - 1 == b / 26 - 1,
                a % 26 == b % 26,
        ;
    } else {
        lemma_base26_nonempty_prefix(if a >= 26 {
            a
        } else {
            b
        });
    }
}

proof fn lemma_base26_nonempty_prefix(n: nat)
    requires
        n >= 26,
    ensures
        base26(n).len() >= 2,
    decreases n,
{
    let m = (n / 26 - 1) as nat;
    assert(m < n) by (nonlinear_arith)
        requires
            n >= 26,
            m == n / 26 - 1,
    ;
    if m >= 26 {
        lemma_base26_nonempty_prefix(m);
    } else {
        assert(base26(m).len() == 1);
    }
    assert(base26(n) == base26(m).push(letter(n % 26)));
}

/// The column id of column `x`: `A`, `B`, ..., `Z`, `AA`, `AB`, ...
pub fn int_to_base_26(x: u32) -> (s: String)
    ensures
        s@ == base26(x as nat),
{
    let range: usize = get_range_branchless(x);
    proof {
        lemma_base26_len(x as nat);
    }
    let ghost digits = base26(x as nat);
    let mut bytes: Vec<char> = Vec::new();
    let mut j: usize = 0;
    while j <= range
        invariant
            j <= range + 1,
            range <= 6,
            bytes@.len() == j,
        decreases range + 1 - j,
    {
        bytes.push('A');
        j += 1;
    }
    let mut k: usize = range + 1;
    let mut y = x;
    while k > 0
        invariant
            k <= range + 1,
            range <= 6,
            bytes@.len() == range + 1,
            digits.len() == range + 1,
            k > 0 ==> base26(y as nat) == digits.take(k as int),
            forall|t: int| k <= t <= range ==> #[trigger] bytes@[t] == digits[t],
        decreases k,
    {
        k -= 1;
        let d = (y % 26) as u8;
        let ch = (d + 65u8) as char;
        proof {
            let t = digits.take(k + 1);
            if y >= 26 {
                assert(t.last() == letter((y % 26) as nat));
                assert(t.drop_last() == digits.take(k as int));
                lemma_base26_nonempty_prefix(y as nat);
            } else {
                assert(t[0] == letter(y as nat));
                assert(t.len() == 1);
            }
            assert(digits[k as int] == t.last());
        }
        bytes.set(k, ch);
        y = (y / 26).wrapping_sub(1);
    }
    proof {
        assert(bytes@ =~= digits);
    }
    crate::text::from_chars(&bytes)
}

/// One cell per column with the column ids `A`, `B`, ... of `num_cols` columns.
pub fn make_col_ids(num_cols: usize) -> (row: Vec<Cell>)
    requires
        num_cols <= u32::MAX,
    ensures
        row@.len() == num_cols,
        forall|i: int|
            0 <= i < num_cols ==> crate::cells::cell_model(#[trigger] row@[i]) == crate::cells::new_cell_model(base26(i as nat)),
{
    let mut row = Vec::<Cell>::new();
    let mut i: usize = 0;
    while i < num_cols
        invariant
            i <= num_cols <= u32::MAX,
            row@.len() == i,
            forall|k: int|
                0 <= k < i ==> crate::cells::cell_model(#[trigger] row@[k]) == crate::cells::new_cell_model(base26(k as nat)),
        decreases num_cols - i,
    {
        let id = int_to_base_26(i as u32);
        let cell = Cell::new(id.as_str());
        row.push(cell);
        i += 1;
    }
    row
}

} // verus!

verus! {

/// What the line splitter has gathered: finished lines, the current line,
/// whether a quote is open and whether the last character was a newline.
pub struct LineState {
    pub parsed: Seq<Seq<char>>,
    pub line: Seq<char>,
    pub quoted: bool,
    pub saw_newline: bool,
}

/// One character of the line splitter: a quote flips quoting and is kept; a
/// newline right after another is dropped, otherwise it ends the line unless
/// a quote is open (then it is dropped); any other character is kept.
pub open spec fn line_step(st: LineState, c: char) -> LineState {
    if c == '"' {
        LineState { quoted: !st.quoted, line: st.line.push(c), ..st }
    } else if c == '\n' {
        if st.saw_newline {
            st
        } else if st.quoted {
            LineState { saw_newline: true, ..st }
        } else {
            LineState { parsed: st.parsed.push(st.line), line: Seq::empty(), saw_newline: true, ..st }
        }
    } else {
        LineState { saw_newline: false, line: st.line.push(c), ..st }
    }
}

pub open spec fn line_scan(s: Seq<char>) -> LineState
    decreases s.len(),
{
    if s.len() == 0 {
        LineState { parsed: Seq::empty(), line: Seq::empty(), quoted: false, saw_newline: false }
    } else {
        line_step(line_scan(s.drop_last()), s.last())
    }
}

/// The lines of a file's text; the last line is kept unless the text ends
/// with a newline.
pub open spec fn split_lines(s: Seq<char>) -> Seq<Seq<char>> {
    let st = line_scan(s);
    if st.saw_newline {
        st.parsed
    } else {
        st.parsed.push(st.line)
    }
}

/// The texts of a vector of strings.
pub open spec fn strings_view(v: Seq<String>) -> Seq<Seq<char>> {
    v.map_values(|s: String| s@)
}

/// The lines of `block`, split at newlines outside quotes.
fn parse_by_newline(block: &str) -> (parsed: Vec<String>)
    ensures
        strings_view(parsed@) == split_lines(block@),
{
    let mut parsed = Vec::<String>::new();
    let mut line = Vec::<char>::new();
    let mut is_quoted = false;
    let mut saw_newline = false;
    for c in it: block.chars()
        invariant
            it.seq() == block@,
            strings_view(parsed@) == line_scan(block@.take(it.index() as int)).parsed,
            line@ == line_scan(block@.take(it.index() as int)).line,
            is_quoted == line_scan(block@.take(it.index() as int)).quoted,
            saw_newline == line_scan(block@.take(it.index() as int)).saw_newline,
    {
        proof {
            let k = it.index() as int;
            assert(block@.take(k + 1).drop_last() == block@.take(k));
            assert(block@.take(k + 1).last() == c);
        }
        if c == '"' {
            is_quoted = !is_quoted;
            line.push(c);
        } else if c == '\n' {
            if !saw_newline {
                saw_newline = true;
                if !is_quoted {
                    let l = from_chars(&line);
                    parsed.push(l);
                    line = Vec::new();
                    proof {
                        assert(strings_view(parsed@) =~= strings_view(parsed@.drop_last()).push(l@));
                    }
                }
            }
        } else {
            saw_newline = false;
            line.push(c);
        }
    }
    assert(block@.take(block@.len() as int) == block@);
    if !saw_newline {
        let l = from_chars(&line);
        parsed.push(l);
        proof {
            assert(strings_view(parsed@) =~= strings_view(parsed@.drop_last()).push(l@));
        }
    }
    parsed
}

/// What the field splitter has gathered: finished fields (trimmed), the
/// current field and whether a quote is open.
pub struct FieldState {
    pub fields: Seq<Seq<char>>,
    pub cur: Seq<char>,
    pub quoted: bool,
}

/// One character of the field splitter: quotes flip quoting and are dropped;
/// the delimiter outside quotes ends the field; anything else is kept.
pub open spec fn field_step(st: FieldState, c: char, d: char) -> FieldState {
    if c == '"' {
        FieldState { quoted: !st.quoted, ..st }
    } else if c == d && !st.quoted {
        FieldState { fields: st.fields.push(crate::text::trim(st.cur)), cur: Seq::empty(), ..st }
    } else {
        FieldState { cur: st.cur.push(c), ..st }
    }
}

pub open spec fn field_scan(s: Seq<char>, d: char) -> FieldState
    decreases s.len(),
{
    if s.len() == 0 {
        FieldState { fields: Seq::empty(), cur: Seq::empty(), quoted: false }
    } else {
        field_step(field_scan(s.drop_last(), d), s.last(), d)
    }
}

/// The delimiter a user names: `t` stands for a tab.
pub open spec fn real_delim(d: char) -> char {
    if d == 't' {
        '\t'
    } else {
        d
    }
}

/// The fields of a line: every field but the last is trimmed.
pub open spec fn split_fields(s: Seq<char>, d: char) -> Seq<Seq<char>> {
    let st = field_scan(s, real_delim(d));
    st.fields.push(st.cur)
}

/// One cell per field of `line`.
fn parse_by_delim(line: &str, delim: char) -> (parsed: Vec<Cell>)
    ensures
        parsed@.len() == split_fields(line@, delim).len(),
        forall|k: int|
            0 <= k < parsed@.len() ==> crate::cells::cell_model(#[trigger] parsed@[k]) == crate::cells::new_cell_model(
                split_fields(line@, delim)[k],
            ),
{
    let mut parsed = Vec::<Cell>::new();
    let mut cell_str = Vec::<char>::new();
    let mut is_quoted = false;
    let delim = if delim == 't' {
        '\t'
    } else {
        delim
    };
    let ghost d = delim;
    for c in it: line.chars()
        invariant
            it.seq() == line@,
            d == delim,
            parsed@.len() == field_scan(line@.take(it.index() as int), d).fields.len(),
            forall|k: int|
                0 <= k < parsed@.len() ==> crate::cells::cell_model(#[trigger] parsed@[k]) == crate::cells::new_cell_model(
                    field_scan(line@.take(it.index() as int), d).fields[k],
                ),
            cell_str@ == field_scan(line@.take(it.index() as int), d).cur,
            is_quoted == field_scan(line@.take(it.index() as int), d).quoted,
    {
        proof {
            let k = it.index() as int;
            assert(line@.take(k + 1).drop_last() == line@.take(k));
            assert(line@.take(k + 1).last() == c);
        }
        if c == '"' {
            is_quoted = !is_quoted;
        } else if c == delim && !is_quoted {
            let t = trim_chars(&cell_str);
            let ts = from_chars(&t);
            let cell = Cell::new(ts.as_str());
            parsed.push(cell);
            cell_str = Vec::new();
        } else {
            cell_str.push(c);
        }
    }
    assert(line@.take(line@.len() as int) == line@);
    let last = from_chars(&cell_str);
    let cell = Cell::new(last.as_str());
    parsed.push(cell);
    parsed
}

} // verus!

verus! {

/// The model of an empty cell.
pub open spec fn blank() -> CellModel {
    crate::cells::new_cell_model(Seq::empty())
}

/// The data lines of a file: every line after the header line.
pub open spec fn data_lines(s: Seq<char>) -> Seq<Seq<char>> {
    split_lines(s).skip(1)
}

/// The rows a freshly loaded column `j` shows: 256 empty cells, then field
/// `j` of every data line (or one empty cell when there is no data line).
pub open spec fn loaded_column(s: Seq<char>, d: char, j: int) -> Seq<CellModel> {
    let data = data_lines(s);
    Seq::new(256, |i: int| blank()) + if data.len() == 0 {
        seq![blank()]
    } else {
        Seq::new(data.len(), |i: int| crate::cells::new_cell_model(split_fields(data[i], d)[j]))
    }
}

/// Whether a file's text can be loaded: it has a line, its header has at most
/// `u32::MAX` fields and no data line has fewer fields than the header.
pub open spec fn loadable(s: Seq<char>, d: char) -> bool {
    let lines = split_lines(s);
    &&& lines.len() > 0
    &&& split_fields(lines[0], d).len() <= u32::MAX
    &&& forall|i: int|
        0 <= i < data_lines(s).len() ==> split_fields(#[trigger] data_lines(s)[i], d).len()
            >= split_fields(lines[0], d).len()
}

/// Whether `c` is the sheet loaded from the text `csv` of the file
/// `filename`: the first line gives the column names, each further line a
/// row; the focus is on the first cell.
pub open spec fn loaded_sheet(c: Cells, filename: String, csv: Seq<char>, delim: char) -> bool {
    let header = split_fields(split_lines(csv)[0], delim);
    &&& c.wf()
    &&& c.filename == filename
    &&& c.delim == delim
    &&& c.header@.len() == header.len()
    &&& (forall|k: int|
        0 <= k < header.len() ==> crate::cells::cell_model(#[trigger] c.header@[k]) == crate::cells::new_cell_model(
            header[k],
        ))
    &&& c.col_ids@.len() == header.len()
    &&& (forall|k: int|
        0 <= k < header.len() ==> crate::cells::cell_model(#[trigger] c.col_ids@[k]) == crate::cells::new_cell_model(
            base26(k as nat),
        ))
    &&& c.columns@.len() == header.len()
    &&& c.grid() == crate::cells::set_focus(
        Seq::new(header.len(), |j: int| loaded_column(csv, delim, j)),
        0,
        0,
        true,
    )
    &&& (forall|k: int|
        0 <= k < c.columns@.len() ==> (#[trigger] c.columns@[k]).padding == 0
            && c.columns@[k].start == 0 && c.columns@[k].width == 12
            && c.columns@[k].indices@.len() == c.columns@[k].cells@.len())
    &&& c.w_cell == (0usize, 0usize)
    &&& !c.changed
    &&& !c.written
    &&& c.slices == 0
}

/// The sheet for the text `csv` of the file `filename`: the first line gives
/// the column names, each further line a row; the focus is on the first cell.
/// `None` when the text is not `loadable`.
pub fn parse_csv_into_cells(filename: String, csv: &str, delim: char) -> (r: Option<Cells>)
    ensures
        r is None <==> !loadable(csv@, delim),
        r matches Some(c) ==> loaded_sheet(c, filename, csv@, delim),
{
    let lines = parse_by_newline(csv);
    if lines.len() == 0 {
        return None;
    }
    let header = parse_by_delim(lines[0].as_str(), delim);
    let col_len = header.len();
    if col_len > 4294967295usize {
        return None;
    }
    let ghost data = data_lines(csv@);
    let mut rows = Vec::<Vec<Cell>>::new();
    let mut i: usize = 1;
    while i < lines.len()
        invariant
            1 <= i <= lines@.len(),
            strings_view(lines@) == split_lines(csv@),
            data == split_lines(csv@).skip(1),
            col_len == split_fields(split_lines(csv@)[0], delim).len(),
            rows@.len() == i - 1,
            forall|k: int|
                0 <= k < i - 1 ==> (#[trigger] rows@[k])@.len() >= col_len && forall|j: int|
                    0 <= j < col_len ==> crate::cells::cell_model(#[trigger] rows@[k]@[j]) == crate::cells::new_cell_model(
                        split_fields(data[k], delim)[j],
                    ),
            forall|k: int| 0 <= k < i - 1 ==> split_fields(#[trigger] data[k], delim).len() >= col_len,
        decreases lines@.len() - i,
    {
        let row = parse_by_delim(lines[i].as_str(), delim);
        proof {
            assert(data[i - 1] == lines@[i as int]@);
        }
        if row.len() < col_len {
            proof {
                assert(data_lines(csv@)[i - 1] == data[i - 1]);
                assert(split_fields(data_lines(csv@)[i - 1], delim).len() < col_len);
            }
            return None;
        }
        rows.push(row);
        i += 1;
    }
    let ids = make_col_ids(col_len);
    let ghost hdr = split_fields(split_lines(csv@)[0], delim);
    let mut cells = Cells::new(filename, delim, header, ids, col_len);
    let ghost expected = Seq::new(col_len as nat, |j: int| loaded_column(csv@, delim, j));
    let mut j: usize = 0;
    while j < col_len
        invariant
            j <= col_len,
            col_len == hdr.len(),
            data == data_lines(csv@),
            rows@.len() == data.len(),
            forall|k: int|
                0 <= k < rows@.len() ==> (#[trigger] rows@[k])@.len() >= col_len && forall|q: int|
                    0 <= q < col_len ==> crate::cells::cell_model(#[trigger] rows@[k]@[q]) == crate::cells::new_cell_model(
                        split_fields(data[k], delim)[q],
                    ),
            expected == Seq::new(col_len as nat, |q: int| loaded_column(csv@, delim, q)),
            cells.columns@.len() == j,
            cells.wf(),
            forall|k: int|
                0 <= k < j ==> (#[trigger] cells.columns@[k]).rows() == expected[k]
                    && cells.columns@[k].padding == 0 && cells.columns@[k].start == 0
                    && cells.columns@[k].width == 12 && cells.columns@[k].indices@.len()
                    == cells.columns@[k].cells@.len(),
            cells.filename == filename,
            cells.delim == delim,
            cells.header@.len() == hdr.len(),
            forall|k: int|
                0 <= k < hdr.len() ==> crate::cells::cell_model(#[trigger] cells.header@[k]) == crate::cells::new_cell_model(
                    hdr[k],
                ),
            cells.col_ids@.len() == hdr.len(),
            forall|k: int|
                0 <= k < hdr.len() ==> crate::cells::cell_model(#[trigger] cells.col_ids@[k]) == crate::cells::new_cell_model(
                    base26(k as nat),
                ),
            cells.w_cell == (0usize, 0usize),
            !cells.changed,
            !cells.written,
            cells.slices == 0,
        decreases col_len - j,
    {
        let mut col = Column::new();
        proof {
            assert(col.rows() =~= Seq::new(256, |q: int| blank()));
        }
        if rows.len() == 0 {
            let c = Cell::new("");
            proof {
                reveal_strlit("");
            }
            col.push_cell(c);
            proof {
                assert(col.rows() =~= expected[j as int]);
            }
        } else {
            let mut i: usize = 0;
            while i < rows.len()
                invariant
                    i <= rows@.len(),
                    j < col_len,
                    rows@.len() == data.len(),
                    data.len() > 0,
                    forall|k: int|
                        0 <= k < rows@.len() ==> (#[trigger] rows@[k])@.len() >= col_len && forall|q: int|
                            0 <= q < col_len ==> crate::cells::cell_model(#[trigger] rows@[k]@[q]) == crate::cells::new_cell_model(
                                split_fields(data[k], delim)[q],
                            ),
                    col.wf(),
                    col.rows() == expected[j as int].take(256 + i as int),
                    col.padding == 0,
                    col.start == 0,
                    col.width == 12,
                    col.indices@.len() == col.cells@.len(),
                    expected == Seq::new(col_len as nat, |q: int| loaded_column(csv@, delim, q)),
                    data == data_lines(csv@),
                decreases rows@.len() - i,
            {
                let c = rows[i][j].clone();
                col.push_cell(c);
                i += 1;
                proof {
                    assert(col.rows() =~= expected[j as int].take(256 + i as int));
                }
            }
            proof {
                assert(expected[j as int].take(256 + rows@.len() as int) =~= expected[j as int]);
            }
        }
        cells.push_column(col);
        j += 1;
    }
    proof {
        assert(cells.columns@[0].indices@.len() > 0);
        assert(cells.grid() =~= expected);
    }
    let ghost g0 = cells.grid();
    let ghost cols0 = cells.columns@;
    cells.set_w_cell(0, 0);
    proof {
        assert forall|k: int| 0 <= k < cells.columns@.len() implies (#[trigger] cells.columns@[k]).padding == 0
            && cells.columns@[k].start == 0 && cells.columns@[k].width == 12
            && cells.columns@[k].indices@.len() == cells.columns@[k].cells@.len() by {
            assert(cells.col_meta()[k] == (cols0[k].start, cols0[k].width, cols0[k].padding));
        }
        let once = crate::cells::set_focus(g0, 0, 0, true);
        let twice = crate::cells::set_focus(crate::cells::set_focus(g0, 0, 0, false), 0, 0, true);
        assert(twice[0] =~= once[0]);
        assert(twice =~= once);
    }
    Some(cells)
}


/// The text `c` of a field, in double quotes when it holds the delimiter `d`.
pub open spec fn quoted(c: Seq<char>, d: char) -> Seq<char> {
    if c.contains(d) {
        seq!['"'] + c + seq!['"']
    } else {
        c
    }
}

/// The fields `t`, each quoted as needed, with the delimiter `d` between
/// them.
pub open spec fn joined(t: Seq<Seq<char>>, d: char) -> Seq<char>
    decreases t.len(),
{
    if t.len() == 0 {
        Seq::empty()
    } else if t.len() == 1 {
        quoted(t[0], d)
    } else {
        joined(t.drop_last(), d) + seq![d] + quoted(t.last(), d)
    }
}

/// The texts of row `i` of the columns `cols`, from left to right.
pub open spec fn row_texts(cols: Seq<Column>, i: int) -> Seq<Seq<char>> {
    Seq::new(cols.len(), |j: int| cols[j].cells@[cols[j].indices@[i] as int].content@)
}

/// The first `n` rows of the columns `cols`, one line each, with a line
/// break between them.
pub open spec fn rows_text(cols: Seq<Column>, d: char, n: nat) -> Seq<char>
    decreases n,
{
    if n == 0 {
        Seq::empty()
    } else if n == 1 {
        joined(row_texts(cols, 0), d)
    } else {
        rows_text(cols, d, (n - 1) as nat) + seq!['\n'] + joined(row_texts(cols, n - 1), d)
    }
}

/// The header texts of a sheet.
pub open spec fn header_texts(c: Cells) -> Seq<Seq<char>> {
    c.header@.map_values(|h: Cell| h.content@)
}

/// Whether the sheet `c` can be written out: it has a column, and every
/// column has the rows shown by the first.
pub open spec fn writable(c: Cells) -> bool {
    &&& c.columns@.len() > 0
    &&& forall|j: int| 0 <= j < c.columns@.len() ==> c.columns@[0].shown() <= (
    #[trigger] c.columns@[j]).indices@.len()
}

/// The file text of the sheet `c`: the header line, then the rows shown by
/// its first column in display order, fields quoted where they hold the
/// delimiter.
pub open spec fn sheet_text(c: Cells) -> Seq<char> {
    joined(header_texts(c), c.delim) + seq!['\n'] + rows_text(c.columns@, c.delim, c.columns@[0].shown())
}

/// Whether `c` holds the character `d`.
fn holds_char(c: &str, d: char) -> (r: bool)
    ensures
        r == c@.contains(d),
{
    for x in it: c.chars()
        invariant
            it.seq() == c@,
            forall|k: int| 0 <= k < it.index() ==> c@[k] != d,
    {
        if x == d {
            assert(c@[it.index() as int] == d);
            return true;
        }
    }
    false
}

/// Appends the field `c`, quoted when it holds the delimiter `d`.
fn push_quoted(out: &mut String, c: &str, d: char)
    ensures
        final(out)@ == old(out)@ + quoted(c@, d),
{
    if holds_char(c, d) {
        out.push('"');
        crate::text::push_text(out, c);
        out.push('"');
        assert(final(out)@ =~= old(out)@ + quoted(c@, d));
    } else {
        crate::text::push_text(out, c);
    }
}

/// Appends row `i` of the columns `cols`.
fn push_row(out: &mut String, cols: &Vec<Column>, i: usize, d: char)
    requires
        forall|j: int| 0 <= j < cols@.len() ==> (#[trigger] cols@[j]).wf() && i < cols@[j].indices@.len(),
    ensures
        final(out)@ == old(out)@ + joined(row_texts(cols@, i as int), d),
{
    let ghost t = row_texts(cols@, i as int);
    let mut j: usize = 0;
    while j < cols.len()
        invariant
            j <= cols@.len(),
            t == row_texts(cols@, i as int),
            forall|k: int| 0 <= k < cols@.len() ==> (#[trigger] cols@[k]).wf() && i < cols@[k].indices@.len(),
            out@ == old(out)@ + joined(t.take(j as int), d),
        decreases cols@.len() - j,
    {
        let col = &cols[j];
        assert(col.wf());
        let idx = col.indices[i];
        let ghost before = out@;
        if j > 0 {
            out.push(d);
        }
        push_quoted(out, col.cells[idx].content.as_str(), d);
        proof {
            assert(t.take(j + 1).drop_last() =~= t.take(j as int));
            assert(t.take(j + 1).last() == t[j as int]);
            if j == 0 {
                assert(t.take(0) =~= Seq::<Seq<char>>::empty());
            }
        }
        j += 1;
    }
    assert(t.take(cols@.len() as int) =~= t);
}

/// The sheet as the text of its file, or `None` when a column lacks one of
/// the rows shown by the first.
pub fn sheet_file_text(cells: &Cells) -> (r: Option<String>)
    requires
        cells.wf(),
    ensures
        r is None <==> !writable(*cells),
        r matches Some(t) ==> t@ == sheet_text(*cells),
{
    let d = cells.delim;
    let mut out = String::new();
    let ghost h = header_texts(*cells);
    let mut i: usize = 0;
    while i < cells.header.len()
        invariant
            i <= cells.header@.len(),
            h == header_texts(*cells),
            out@ == joined(h.take(i as int), d),
        decreases cells.header@.len() - i,
    {
        if i > 0 {
            out.push(d);
        }
        push_quoted(&mut out, cells.header[i].content.as_str(), d);
        proof {
            assert(h.take(i + 1).drop_last() =~= h.take(i as int));
            if i == 0 {
                assert(h.take(0) =~= Seq::<Seq<char>>::empty());
            }
        }
        i += 1;
    }
    assert(h.take(cells.header@.len() as int) =~= h);
    out.push('\n');
    if cells.columns.len() == 0 {
        return None;
    }
    assert(cells.columns@[0].wf());
    let n = cells.columns[0].len();
    let mut j: usize = 0;
    while j < cells.columns.len()
        invariant
            j <= cells.columns@.len(),
            n == cells.columns@[0].shown(),
            forall|k: int| 0 <= k < j ==> n <= (#[trigger] cells.columns@[k]).indices@.len(),
        decreases cells.columns@.len() - j,
    {
        if cells.columns[j].indices.len() < n {
            return None;
        }
        j += 1;
    }
    let ghost base = out@;
    let mut r: usize = 0;
    while r < n
        invariant
            r <= n,
            n == cells.columns@[0].shown(),
            cells.wf(),
            forall|k: int| 0 <= k < cells.columns@.len() ==> n <= (#[trigger] cells.columns@[k]).indices@.len(),
            out@ == base + rows_text(cells.columns@, d, r as nat),
        decreases n - r,
    {
        if r > 0 {
            out.push('\n');
        }
        proof {
            assert forall|k: int| 0 <= k < cells.columns@.len() implies (#[trigger] cells.columns@[k]).wf()
                && r < cells.columns@[k].indices@.len() by {
                assert(cells.columns@[k].wf());
            }
        }
        push_row(&mut out, &cells.columns, r, d);
        proof {
            assert(out@ =~= base + rows_text(cells.columns@, d, (r + 1) as nat));
        }
        r += 1;
    }
    Some(out)
}


/// The field splitter's state after reading `u` from the state `st`.
pub open spec fn field_scan_from(st: FieldState, u: Seq<char>, d: char) -> FieldState
    decreases u.len(),
{
    if u.len() == 0 {
        st
    } else {
        field_step(field_scan_from(st, u.drop_last(), d), u.last(), d)
    }
}

proof fn lemma_field_scan_split(st: FieldState, a: Seq<char>, b: Seq<char>, d: char)
    ensures
        field_scan_from(st, a + b, d) == field_scan_from(field_scan_from(st, a, d), b, d),
    decreases b.len(),
{
    if b.len() == 0 {
        assert(a + b =~= a);
    } else {
        assert((a + b).drop_last() =~= a + b.drop_last());
        assert((a + b).last() == b.last());
        lemma_field_scan_split(st, a, b.drop_last(), d);
    }
}

proof fn lemma_field_scan_start(s: Seq<char>, d: char)
    ensures
        field_scan(s, d) == field_scan_from(
            FieldState { fields: Seq::empty(), cur: Seq::empty(), quoted: false },
            s,
            d,
        ),
    decreases s.len(),
{
    if s.len() > 0 {
        lemma_field_scan_start(s.drop_last(), d);
    }
}

proof fn lemma_field_scan_one(st: FieldState, c: char, d: char)
    ensures
        field_scan_from(st, seq![c], d) == field_step(st, c, d),
{
    let q = seq![c];
    assert(q.drop_last() =~= Seq::<char>::empty());
    assert(field_scan_from(st, q.drop_last(), d) == st);
    assert(q.last() == c);
}

proof fn lemma_field_scan_plain(st: FieldState, x: Seq<char>, d: char)
    requires
        !x.contains('"'),
        st.quoted || !x.contains(d),
    ensures
        field_scan_from(st, x, d) == (FieldState { cur: st.cur + x, ..st }),
    decreases x.len(),
{
    if x.len() == 0 {
        assert(st.cur + x =~= st.cur);
    } else {
        let y = x.drop_last();
        assert(!y.contains('"')) by {
            if y.contains('"') {
                let i = choose|i: int| 0 <= i < y.len() && y[i] == '"';
                assert(x[i] == '"');
            }
        }
        assert(st.quoted || !y.contains(d)) by {
            if y.contains(d) {
                let i = choose|i: int| 0 <= i < y.len() && y[i] == d;
                assert(x[i] == d);
            }
        }
        lemma_field_scan_plain(st, y, d);
        assert(x.last() == x[x.len() - 1]);
        assert(x.last() != '"');
        assert(!st.quoted ==> x.last() != d);
        assert((st.cur + y).push(x.last()) =~= st.cur + x);
    }
}

proof fn lemma_field_scan_quoted(st: FieldState, x: Seq<char>, d: char)
    requires
        !x.contains('"'),
        !st.quoted,
        d != '"',
    ensures
        field_scan_from(st, quoted(x, d), d) == (FieldState { cur: st.cur + x, ..st }),
{
    if x.contains(d) {
        let q = seq!['"'];
        lemma_field_scan_one(st, '"', d);
        let st1 = FieldState { quoted: true, ..st };
        lemma_field_scan_plain(st1, x, d);
        let st2 = FieldState { cur: st.cur + x, quoted: true, ..st };
        lemma_field_scan_one(st2, '"', d);
        lemma_field_scan_split(st, q, x, d);
        lemma_field_scan_split(st, q + x, q, d);
        assert(quoted(x, d) == q + x + q);
    } else {
        lemma_field_scan_plain(st, x, d);
    }
}

/// Whether the fields `t` come back unchanged from a line written with the
/// delimiter `d`: none holds a double quote and all but the last are
/// trimmed already.
pub open spec fn fields_keep(t: Seq<Seq<char>>) -> bool {
    &&& forall|i: int| 0 <= i < t.len() ==> !(#[trigger] t[i]).contains('"')
    &&& forall|i: int| 0 <= i < t.len() - 1 ==> crate::text::trim(#[trigger] t[i]) == t[i]
}

proof fn lemma_joined_scan(t: Seq<Seq<char>>, d: char)
    requires
        t.len() > 0,
        d != '"',
        fields_keep(t),
    ensures
        field_scan(joined(t, d), d) == (FieldState { fields: t.drop_last(), cur: t.last(), quoted: false }),
    decreases t.len(),
{
    let init = FieldState { fields: Seq::empty(), cur: Seq::empty(), quoted: false };
    if t.len() == 1 {
        assert(!t[0].contains('"'));
        lemma_field_scan_start(quoted(t[0], d), d);
        lemma_field_scan_quoted(init, t[0], d);
        assert(Seq::<char>::empty() + t[0] =~= t[0]);
        assert(t.drop_last() =~= Seq::<Seq<char>>::empty());
    } else {
        let u = t.drop_last();
        assert(fields_keep(u)) by {
            assert forall|i: int| 0 <= i < u.len() implies !(#[trigger] u[i]).contains('"') by {
                assert(u[i] == t[i]);
            }
            assert forall|i: int| 0 <= i < u.len() - 1 implies crate::text::trim(#[trigger] u[i]) == u[i] by {
                assert(u[i] == t[i]);
            }
        }
        lemma_joined_scan(u, d);
        let st0 = field_scan(joined(u, d), d);
        assert(crate::text::trim(t[t.len() - 2]) == t[t.len() - 2]);
        assert(u.last() == t[t.len() - 2]);
        let dd = seq![d];
        lemma_field_scan_one(st0, d, d);
        let st1 = FieldState { fields: u, cur: Seq::empty(), quoted: false };
        assert(u.drop_last().push(u.last()) =~= u);
        assert(field_scan_from(st0, dd, d) == st1);
        assert(!t.last().contains('"')) by {
            assert(t.last() == t[t.len() - 1]);
        }
        lemma_field_scan_quoted(st1, t.last(), d);
        assert(Seq::<char>::empty() + t.last() =~= t.last());
        let j = joined(u, d);
        lemma_field_scan_start(j + dd + quoted(t.last(), d), d);
        lemma_field_scan_start(j, d);
        lemma_field_scan_split(init, j + dd, quoted(t.last(), d), d);
        lemma_field_scan_split(init, j, dd, d);
    }
}

/// Law: a line written from the fields `t`, each in double quotes where it
/// holds the delimiter `d`, splits back into `t` when none of them holds a
/// double quote and all but the last are trimmed already.
pub proof fn lemma_fields_roundtrip(t: Seq<Seq<char>>, d: char)
    requires
        t.len() > 0,
        d != '"',
        d != 't',
        fields_keep(t),
    ensures
        split_fields(joined(t, d), d) == t,
{
    lemma_joined_scan(t, d);
    assert(t.drop_last().push(t.last()) =~= t);
}

/// Law: the texts written for row `i` of a sheet are, column by column, the
/// texts the sheet shows at row `i`.
pub proof fn lemma_saved_row_is_shown(c: Cells, i: int)
    requires
        writable(c),
        0 <= i < c.columns@[0].shown(),
    ensures
        row_texts(c.columns@, i) == shown_row(c, i),
{
    assert forall|j: int| 0 <= j < c.columns@.len() implies #[trigger] row_texts(c.columns@, i)[j]
        == c.grid()[j][i].content by {
        assert(c.columns@[0].shown() <= c.columns@[j].indices@.len());
        assert(c.grid()[j] == c.columns@[j].rows());
    }
    assert(row_texts(c.columns@, i) =~= shown_row(c, i));
}

/// The line splitter's state after reading `u` from the state `st`.
pub open spec fn line_scan_from(st: LineState, u: Seq<char>) -> LineState
    decreases u.len(),
{
    if u.len() == 0 {
        st
    } else {
        line_step(line_scan_from(st, u.drop_last()), u.last())
    }
}

proof fn lemma_line_scan_split(st: LineState, a: Seq<char>, b: Seq<char>)
    ensures
        line_scan_from(st, a + b) == line_scan_from(line_scan_from(st, a), b),
    decreases b.len(),
{
    if b.len() == 0 {
        assert(a + b =~= a);
    } else {
        assert((a + b).drop_last() =~= a + b.drop_last());
        assert((a + b).last() == b.last());
        lemma_line_scan_split(st, a, b.drop_last());
    }
}

proof fn lemma_line_scan_start(s: Seq<char>)
    ensures
        line_scan(s) == line_scan_from(
            LineState { parsed: Seq::empty(), line: Seq::empty(), quoted: false, saw_newline: false },
            s,
        ),
    decreases s.len(),
{
    if s.len() > 0 {
        lemma_line_scan_start(s.drop_last());
    }
}

proof fn lemma_line_scan_one(st: LineState, c: char)
    ensures
        line_scan_from(st, seq![c]) == line_step(st, c),
{
    let q = seq![c];
    assert(q.drop_last() =~= Seq::<char>::empty());
    assert(line_scan_from(st, q.drop_last()) == st);
    assert(q.last() == c);
}

proof fn lemma_line_scan_plain(st: LineState, x: Seq<char>)
    requires
        !x.contains('"'),
        !x.contains('\n'),
    ensures
        line_scan_from(st, x) == (LineState {
            line: st.line + x,
            saw_newline: if x.len() > 0 {
                false
            } else {
                st.saw_newline
            },
            ..st
        }),
    decreases x.len(),
{
    if x.len() == 0 {
        assert(st.line + x =~= st.line);
    } else {
        let y = x.drop_last();
        assert(!y.contains('"') && !y.contains('\n')) by {
            if y.contains('"') {
                let i = choose|i: int| 0 <= i < y.len() && y[i] == '"';
                assert(x[i] == '"');
            }
            if y.contains('\n') {
                let i = choose|i: int| 0 <= i < y.len() && y[i] == '\n';
                assert(x[i] == '\n');
            }
        }
        lemma_line_scan_plain(st, y);
        assert(x.last() == x[x.len() - 1]);
        assert(x.last() != '"' && x.last() != '\n');
        assert((st.line + y).push(x.last()) =~= st.line + x);
    }
}

proof fn lemma_line_scan_quoted(st: LineState, x: Seq<char>, d: char)
    requires
        !x.contains('"'),
        !x.contains('\n'),
    ensures
        line_scan_from(st, quoted(x, d)) == (LineState {
            line: st.line + quoted(x, d),
            saw_newline: if x.len() > 0 {
                false
            } else {
                st.saw_newline
            },
            ..st
        }),
{
    if x.contains(d) {
        let q = seq!['"'];
        lemma_line_scan_one(st, '"');
        let st1 = LineState { quoted: !st.quoted, line: st.line.push('"'), ..st };
        lemma_line_scan_plain(st1, x);
        assert(x.len() > 0);
        let st2 = LineState { quoted: !st.quoted, line: st.line.push('"') + x, saw_newline: false, ..st };
        lemma_line_scan_one(st2, '"');
        lemma_line_scan_split(st, q, x);
        lemma_line_scan_split(st, q + x, q);
        assert(quoted(x, d) == q + x + q);
        assert((st.line.push('"') + x).push('"') =~= st.line + quoted(x, d));
    } else {
        lemma_line_scan_plain(st, x);
    }
}

/// Whether no field of `t` holds a double quote or a line break.
pub open spec fn fields_plain(t: Seq<Seq<char>>) -> bool {
    forall|i: int| 0 <= i < t.len() ==> !(#[trigger] t[i]).contains('"') && !t[i].contains('\n')
}

proof fn lemma_line_scan_joined(st: LineState, t: Seq<Seq<char>>, d: char)
    requires
        t.len() > 0,
        d != '"',
        d != '\n',
        fields_plain(t),
    ensures
        line_scan_from(st, joined(t, d)) == (LineState {
            line: st.line + joined(t, d),
            saw_newline: if joined(t, d).len() > 0 {
                false
            } else {
                st.saw_newline
            },
            ..st
        }),
        t.len() >= 2 || t[0].len() > 0 ==> joined(t, d).len() > 0,
    decreases t.len(),
{
    if t.len() == 1 {
        assert(!t[0].contains('"') && !t[0].contains('\n'));
        lemma_line_scan_quoted(st, t[0], d);
        if t[0].contains(d) {
            assert(quoted(t[0], d).len() == t[0].len() + 2);
        }
    } else {
        let u = t.drop_last();
        assert(fields_plain(u)) by {
            assert forall|i: int| 0 <= i < u.len() implies !(#[trigger] u[i]).contains('"') && !u[i].contains('\n') by {
                assert(u[i] == t[i]);
            }
        }
        lemma_line_scan_joined(st, u, d);
        let j = joined(u, d);
        let st1 = line_scan_from(st, j);
        let dd = seq![d];
        lemma_line_scan_one(st1, d);
        let st2 = LineState { line: st.line + j + dd, saw_newline: false, ..st };
        assert(line_step(st1, d) == st2) by {
            assert((st.line + j).push(d) =~= st.line + j + dd);
        }
        let last = t.last();
        assert(!last.contains('"') && !last.contains('\n')) by {
            assert(last == t[t.len() - 1]);
        }
        lemma_line_scan_quoted(st2, last, d);
        lemma_line_scan_split(st, j, dd);
        lemma_line_scan_split(st, j + dd, quoted(last, d));
        assert(joined(t, d) == j + dd + quoted(last, d));
        assert(st.line + j + dd + quoted(last, d) =~= st.line + joined(t, d));
    }
}

/// The texts that the sheet `c` shows at row `i`, from left to right.
pub open spec fn shown_row(c: Cells, i: int) -> Seq<Seq<char>> {
    c.grid().map_values(|col: Seq<CellModel>| col[i].content)
}

/// Whether the line written from the fields `t` can be read back as them:
/// there is a field, none holds a double quote or a line break, and all but
/// the last are trimmed already.
pub open spec fn line_keeps(t: Seq<Seq<char>>) -> bool {
    &&& t.len() > 0
    &&& fields_keep(t)
    &&& fields_plain(t)
}

proof fn lemma_rows_text_lines(cols: Seq<Column>, d: char, n: nat, st: LineState)
    requires
        n >= 1,
        d != '"',
        d != '\n',
        !st.quoted,
        st.line.len() == 0,
        forall|i: int|
            0 <= i < n ==> line_keeps(#[trigger] row_texts(cols, i)) && joined(row_texts(cols, i), d).len() > 0,
    ensures
        line_scan_from(st, rows_text(cols, d, n)) == (LineState {
            parsed: st.parsed + Seq::new((n - 1) as nat, |i: int| joined(row_texts(cols, i), d)),
            line: joined(row_texts(cols, n - 1), d),
            quoted: false,
            saw_newline: false,
        }),
    decreases n,
{
    let last = joined(row_texts(cols, n - 1), d);
    assert(line_keeps(row_texts(cols, n - 1)));
    if n == 1 {
        lemma_line_scan_joined(st, row_texts(cols, 0), d);
        assert(st.line + last =~= last);
        assert(st.parsed + Seq::new(0, |i: int| joined(row_texts(cols, i), d)) =~= st.parsed);
    } else {
        lemma_rows_text_lines(cols, d, (n - 1) as nat, st);
        let prev = rows_text(cols, d, (n - 1) as nat);
        let s1 = line_scan_from(st, prev);
        let nl = seq!['\n'];
        lemma_line_scan_one(s1, '\n');
        let s2 = LineState { parsed: s1.parsed.push(s1.line), line: Seq::empty(), saw_newline: true, quoted: false };
        assert(line_step(s1, '\n') == s2);
        lemma_line_scan_joined(s2, row_texts(cols, n - 1), d);
        assert(s2.line + last =~= last);
        lemma_line_scan_split(st, prev, nl);
        lemma_line_scan_split(st, prev + nl, last);
        assert(rows_text(cols, d, n) == prev + nl + last);
        assert(s1.parsed.push(s1.line) =~= st.parsed + Seq::new((n - 1) as nat, |i: int| joined(row_texts(cols, i), d)));
    }
}

/// Law: reading back the text that a sheet is saved as gives one line per
/// shown row after the header line; the fields of the header line are the
/// column names and those of each further line the texts the sheet shows at
/// that row, where no text holds a double quote or a line break, all but the
/// last of a line are trimmed already, and no written row is an empty line.
pub proof fn lemma_saved_text_reads_back(c: Cells)
    requires
        writable(c),
        c.delim != '"',
        c.delim != '\n',
        c.delim != 't',
        line_keeps(header_texts(c)),
        forall|i: int|
            0 <= i < c.columns@[0].shown() ==> line_keeps(#[trigger] shown_row(c, i)) && (c.columns@.len() >= 2
                || shown_row(c, i)[0].len() > 0),
    ensures
        split_lines(sheet_text(c)).len() == c.columns@[0].shown() + 1,
        split_fields(split_lines(sheet_text(c))[0], c.delim) == header_texts(c),
        forall|i: int|
            0 <= i < c.columns@[0].shown() ==> split_fields(#[trigger] data_lines(sheet_text(c))[i], c.delim)
                == shown_row(c, i),
{
    let d = c.delim;
    let n = c.columns@[0].shown();
    let cols = c.columns@;
    let h = header_texts(c);
    let jh = joined(h, d);
    let init = LineState { parsed: Seq::empty(), line: Seq::empty(), quoted: false, saw_newline: false };
    assert forall|i: int| 0 <= i < n implies line_keeps(#[trigger] row_texts(cols, i)) && joined(
        row_texts(cols, i),
        d,
    ).len() > 0 by {
        lemma_saved_row_is_shown(c, i);
        assert(line_keeps(shown_row(c, i)));
        lemma_line_scan_joined(init, row_texts(cols, i), d);
    }
    lemma_line_scan_joined(init, h, d);
    let s1 = line_scan_from(init, jh);
    let nl = seq!['\n'];
    lemma_line_scan_one(s1, '\n');
    let s2 = LineState { parsed: seq![jh], line: Seq::empty(), quoted: false, saw_newline: true };
    assert(Seq::<char>::empty() + jh =~= jh);
    assert(Seq::<Seq<char>>::empty().push(jh) =~= seq![jh]);
    assert(line_step(s1, '\n') == s2);
    lemma_line_scan_split(init, jh, nl);
    let rt = rows_text(cols, d, n);
    lemma_line_scan_split(init, jh + nl, rt);
    lemma_line_scan_start(sheet_text(c));
    assert(sheet_text(c) == jh + nl + rt);
    let rows = Seq::new(n, |i: int| joined(row_texts(cols, i), d));
    if n == 0 {
        assert(rt.len() == 0);
        assert(split_lines(sheet_text(c)) == seq![jh]);
    } else {
        lemma_rows_text_lines(cols, d, n, s2);
        assert(split_lines(sheet_text(c)) =~= seq![jh] + rows);
    }
    assert(split_lines(sheet_text(c)) =~= seq![jh] + rows);
    lemma_fields_roundtrip(h, d);
    assert forall|i: int| 0 <= i < n implies split_fields(#[trigger] data_lines(sheet_text(c))[i], d)
        == shown_row(c, i) by {
        assert(data_lines(sheet_text(c))[i] == rows[i]);
        lemma_saved_row_is_shown(c, i);
        assert(line_keeps(row_texts(cols, i)));
        lemma_fields_roundtrip(row_texts(cols, i), d);
    }
}

/// `s` with every carriage return made a space.
pub open spec fn without_cr(s: Seq<char>) -> Seq<char> {
    s.map_values(|c: char| if c == '\r' { ' ' } else { c })
}

/// The sheet for the text `file` read from the file `filename`: carriage
/// returns are read as spaces, then the text is parsed as by
/// `parse_csv_into_cells`.
pub fn load_csv_text(filename: String, file: &str, delim: char) -> (r: Option<Cells>)
    ensures
        r is None <==> !loadable(without_cr(file@), delim),
        r matches Some(c) ==> loaded_sheet(c, filename, without_cr(file@), delim),
{
    let mut t = String::new();
    for c in it: file.chars()
        invariant
            it.seq() == file@,
            t@ == without_cr(file@.take(it.index() as int)),
    {
        let ghost k = it.index() as int;
        if c == '\r' {
            t.push(' ');
        } else {
            t.push(c);
        }
        proof {
            assert(file@.take(k + 1) =~= file@.take(k).push(c));
            assert(without_cr(file@.take(k + 1)) =~= without_cr(file@.take(k)).push(
                if c == '\r' { ' ' } else { c },
            ));
        }
    }
    assert(file@.take(file@.len() as int) =~= file@);
    parse_csv_into_cells(filename, t.as_str(), delim)
}

} // verus!

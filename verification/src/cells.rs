//! The sheet: cells that keep their terminal escape sequences aside,
//! columns that show their cells through a permutation of row indices,
//! whole sheets, and the set of open sheets.
use vstd::prelude::*;

use crate::text::{push_text, to_chars};

verus! {

/// An escape sequence (or a newline) taken out of a cell's text, with the
/// position in the visible text where it stood.
#[derive(Debug)]
pub struct EscSeq {
    pub seq: String,
    pub start: usize,
    pub len: usize,
}

/// The number of bytes the characters `s` take in UTF-8.
pub open spec fn byte_len(s: Seq<char>) -> nat {
    vstd::utf8::encode_utf8(s).len()
}

/// An escape sequence as text and position.
pub open spec fn esc_view(e: EscSeq) -> (Seq<char>, nat) {
    (e.seq@, e.start as nat)
}

/// The escape sequences of a cell as texts and positions.
pub open spec fn esc_views(v: Seq<EscSeq>) -> Seq<(Seq<char>, nat)> {
    v.map_values(|e: EscSeq| esc_view(e))
}

/// Whether the `len` field of every escape sequence is its byte length.
pub open spec fn esc_lens_ok(v: Seq<EscSeq>) -> bool {
    forall|k: int| 0 <= k < v.len() ==> #[trigger] v[k].len == byte_len(v[k].seq@) as usize
}

impl EscSeq {
    /// An empty escape sequence at position 0.
    pub fn new() -> (e: Self)
        ensures
            e.seq@ == Seq::<char>::empty(),
            e.start == 0,
            e.len == 0,
    {
        Self { seq: String::new(), start: 0usize, len: 0usize }
    }

    /// A copy with the same text, position and length.
    pub fn clone(&self) -> (e: Self)
        ensures
            e.seq@ == self.seq@,
            e.start == self.start,
            e.len == self.len,
    {
        Self { seq: self.seq.clone(), start: self.start, len: self.len }
    }

    /// Appends `c` to the sequence and updates its byte length.
    pub fn push_seq(&mut self, c: char)
        ensures
            final(self).seq@ == old(self).seq@.push(c),
            final(self).start == old(self).start,
            final(self).len == byte_len(final(self).seq@) as usize,
    {
        self.seq.push(c);
        self.len = self.seq.as_str().len();
    }

    /// Appends `c` and records `i` as the position of the sequence.
    pub fn set_start(&mut self, c: char, i: usize)
        ensures
            final(self).seq@ == old(self).seq@.push(c),
            final(self).start == i,
            final(self).len == byte_len(final(self).seq@) as usize,
    {
        self.push_seq(c);
        self.start = i;
    }
}

/// What the scan of a cell's raw text has gathered so far: the visible text,
/// the finished escape sequences, and the escape sequence being read.
pub struct ScanState {
    pub line: Seq<char>,
    pub esq: Seq<(Seq<char>, nat)>,
    pub cur: Seq<char>,
    pub cur_start: nat,
    pub in_esc: bool,
    pub csi: bool,
}

/// The state before any character has been read.
pub open spec fn scan_init() -> ScanState {
    ScanState {
        line: Seq::empty(),
        esq: Seq::empty(),
        cur: Seq::empty(),
        cur_start: 0,
        in_esc: false,
        csi: false,
    }
}

/// Whether `c` ends an escape sequence (`@` to `~`).
pub open spec fn is_final_byte(c: char) -> bool {
    '@' <= c && c <= '~'
}

/// One character of the scan: ESC opens an escape sequence, `[` right after
/// it makes it a control sequence, a character from `@` to `~` ends it, a
/// newline is kept aside at its position, and any other character is visible
/// text, or part of the open escape sequence (which it ends unless that is a
/// control sequence).
pub open spec fn scan_step(st: ScanState, c: char) -> ScanState {
    if c == '\x1b' {
        ScanState { in_esc: true, cur: st.cur.push(c), cur_start: st.line.len(), ..st }
    } else if c == '[' && st.in_esc {
        ScanState { csi: true, cur: st.cur.push(c), ..st }
    } else if is_final_byte(c) && st.in_esc {
        ScanState {
            esq: st.esq.push((st.cur.push(c), st.cur_start)),
            cur: Seq::empty(),
            cur_start: 0,
            in_esc: false,
            csi: false,
            ..st
        }
    } else if c == '\n' {
        ScanState { esq: st.esq.push((seq!['\n'], st.line.len())), ..st }
    } else if !st.in_esc {
        ScanState { line: st.line.push(c), ..st }
    } else if st.csi {
        ScanState { cur: st.cur.push(c), ..st }
    } else {
        ScanState {
            esq: st.esq.push((st.cur.push(c), st.cur_start)),
            cur: Seq::empty(),
            cur_start: 0,
            in_esc: false,
            ..st
        }
    }
}

/// The scan of the characters `s`.
pub open spec fn scan(s: Seq<char>) -> ScanState
    decreases s.len(),
{
    if s.len() == 0 {
        scan_init()
    } else {
        scan_step(scan(s.drop_last()), s.last())
    }
}

/// Whether `s` has no escape sequence left open at its end and no newline
/// inside an escape sequence: the texts whose escapes a cell gives back as
/// they were.
pub open spec fn escapes_closed(s: Seq<char>) -> bool {
    &&& !scan(s).in_esc
    &&& forall|k: int| 0 <= k < s.len() && s[k] == '\n' ==> !(#[trigger] scan(s.take(k))).in_esc
}

/// The text of `content` with the escape sequences `esc` put back, each one
/// before the visible character at its position (`pos` is the position of
/// `content[0]`); sequences that are not reached stay for the end.
pub open spec fn reinsert(content: Seq<char>, esc: Seq<(Seq<char>, nat)>, pos: nat) -> Seq<char>
    decreases content.len() + esc.len(),
{
    if esc.len() > 0 && (content.len() == 0 || esc[0].1 == pos) {
        esc[0].0 + reinsert(content, esc.drop_first(), pos)
    } else if content.len() > 0 {
        seq![content[0]] + reinsert(content.drop_first(), esc, pos + 1)
    } else {
        Seq::empty()
    }
}

/// Inserts `e` into `s` (sorted by position) after every element whose
/// position is not larger than that of `e`.
pub open spec fn insert_by_start(s: Seq<(Seq<char>, nat)>, e: (Seq<char>, nat)) -> Seq<
    (Seq<char>, nat),
>
    decreases s.len(),
{
    if s.len() == 0 {
        seq![e]
    } else if s.last().1 <= e.1 {
        s.push(e)
    } else {
        insert_by_start(s.drop_last(), e).push(s.last())
    }
}

/// The stable sort of escape sequences by position.
pub open spec fn sort_by_start(s: Seq<(Seq<char>, nat)>) -> Seq<(Seq<char>, nat)>
    decreases s.len(),
{
    if s.len() == 0 {
        s
    } else {
        insert_by_start(sort_by_start(s.drop_last()), s.last())
    }
}

/// Whether the positions in `s` do not decrease.
pub open spec fn starts_sorted(s: Seq<(Seq<char>, nat)>) -> bool {
    forall|i: int, j: int| 0 <= i <= j < s.len() ==> s[i].1 <= s[j].1
}

/// The raw text of a cell: its visible text with its escape sequences put back.
pub open spec fn raw_text(content: Seq<char>, esc: Seq<EscSeq>) -> Seq<char> {
    reinsert(content, sort_by_start(esc_views(esc)), 0)
}

#[derive(Debug)]
pub struct Cell {
    pub content: String,
    pub escape_sequences: Vec<EscSeq>,
    pub width: usize,
    pub text_offset: usize,
    pub is_focused: bool,
}

/// A cell made from `raw` as `Cell::new` makes it, with the given geometry.
pub open spec fn is_new_cell(c: Cell, raw: Seq<char>) -> bool {
    &&& c.content@ == scan(raw).line
    &&& esc_views(c.escape_sequences@) == scan(raw).esq
    &&& esc_lens_ok(c.escape_sequences@)
    &&& c.width == 12
    &&& c.text_offset == 0
    &&& !c.is_focused
}

/// A cell as plain values: visible text, escape sequences (text, position,
/// byte length), width, text offset and focus.
pub struct CellModel {
    pub content: Seq<char>,
    pub escapes: Seq<(Seq<char>, nat, usize)>,
    pub width: usize,
    pub text_offset: usize,
    pub is_focused: bool,
}

/// An escape sequence as text, position and byte length.
pub open spec fn esc_model(e: EscSeq) -> (Seq<char>, nat, usize) {
    (e.seq@, e.start as nat, e.len)
}

/// The plain values of a cell.
pub open spec fn cell_model(c: Cell) -> CellModel {
    CellModel {
        content: c.content@,
        escapes: c.escape_sequences@.map_values(|e: EscSeq| esc_model(e)),
        width: c.width,
        text_offset: c.text_offset,
        is_focused: c.is_focused,
    }
}

/// The model of the cell `Cell::new` makes from `raw`.
pub open spec fn new_cell_model(raw: Seq<char>) -> CellModel {
    CellModel {
        content: scan(raw).line,
        escapes: scan(raw).esq.map_values(
            |t: (Seq<char>, nat)| (t.0, t.1, byte_len(t.0) as usize),
        ),
        width: 12,
        text_offset: 0,
        is_focused: false,
    }
}

proof fn lemma_new_cell_model(c: Cell, raw: Seq<char>)
    requires
        is_new_cell(c, raw),
    ensures
        cell_model(c) == new_cell_model(raw),
{
    let a = c.escape_sequences@.map_values(|e: EscSeq| esc_model(e));
    let b = scan(raw).esq.map_values(|t: (Seq<char>, nat)| (t.0, t.1, byte_len(t.0) as usize));
    assert forall|k: int| 0 <= k < a.len() implies a[k] == b[k] by {
        assert(esc_views(c.escape_sequences@)[k] == esc_view(c.escape_sequences@[k]));
        assert(c.escape_sequences@[k].len == byte_len(c.escape_sequences@[k].seq@) as usize);
    }
    assert(a =~= b);
}

/// Whether an index list is a permutation of `0..n`.
pub open spec fn is_perm(idx: Seq<usize>, n: nat) -> bool {
    &&& idx.len() == n
    &&& (forall|i: int| 0 <= i < idx.len() ==> #[trigger] idx[i] < n)
    &&& (forall|i: int, j: int| 0 <= i < j < idx.len() ==> idx[i] != idx[j])
}

/// The identity permutation of `0..n`.
pub open spec fn identity(n: nat) -> Seq<usize> {
    Seq::new(n, |i: int| i as usize)
}

proof fn lemma_esc_views_push(v: Seq<EscSeq>, e: EscSeq)
    ensures
        esc_views(v.push(e)) == esc_views(v).push(esc_view(e)),
{
    assert(esc_views(v.push(e)) =~= esc_views(v).push(esc_view(e)));
}

proof fn lemma_scan_facts(s: Seq<char>)
    ensures
        scan(s).line.len() <= s.len(),
        !scan(s).in_esc ==> scan(s).cur == Seq::<char>::empty() && scan(s).cur_start == 0,
    decreases s.len(),
{
    if s.len() > 0 {
        lemma_scan_facts(s.drop_last());
    }
}

/// The escape sequences of a scan, with the open one (if any) at the end.
pub open spec fn scan_escapes(st: ScanState) -> Seq<(Seq<char>, nat)> {
    if st.in_esc {
        st.esq.push((st.cur, st.cur_start))
    } else {
        st.esq
    }
}

/// Whether every position in `e` lies in `lo..=hi` and the positions do not decrease.
pub open spec fn starts_within(e: Seq<(Seq<char>, nat)>, lo: nat, hi: nat) -> bool {
    &&& starts_sorted(e)
    &&& forall|i: int| 0 <= i < e.len() ==> lo <= #[trigger] e[i].1 <= hi
}

proof fn lemma_reinsert_push_char(c: Seq<char>, e: Seq<(Seq<char>, nat)>, p: nat, x: char)
    requires
        starts_within(e, p, p + c.len()),
    ensures
        reinsert(c.push(x), e, p) == reinsert(c, e, p).push(x),
    decreases c.len() + e.len(),
{
    let cx = c.push(x);
    if e.len() > 0 && (c.len() == 0 || e[0].1 == p) {
        assert(e[0].1 == p);
        assert(starts_within(e.drop_first(), p, p + c.len())) by {
            assert forall|i: int, j: int| 0 <= i <= j < e.drop_first().len() implies e.drop_first()[i].1 <= e.drop_first()[j].1 by {
                assert(e.drop_first()[i] == e[i + 1]);
                assert(e.drop_first()[j] == e[j + 1]);
            }
            assert forall|i: int| 0 <= i < e.drop_first().len() implies p <= #[trigger] e.drop_first()[i].1 <= p + c.len() by {
                assert(e.drop_first()[i] == e[i + 1]);
            }
        }
        lemma_reinsert_push_char(c, e.drop_first(), p, x);
    } else if c.len() > 0 {
        assert(cx.drop_first() == c.drop_first().push(x));
        assert(cx[0] == c[0]);
        if e.len() > 0 {
            assert(e[0].1 > p);
            assert forall|i: int| 0 <= i < e.len() implies p + 1 <= #[trigger] e[i].1 by {
                assert(e[0].1 <= e[i].1);
            }
        }
        lemma_reinsert_push_char(c.drop_first(), e, p + 1, x);
        assert(reinsert(cx, e, p) == seq![c[0]] + reinsert(c.drop_first().push(x), e, p + 1));
    } else {
        assert(e.len() == 0);
        assert(cx.drop_first().len() == 0);
        assert(reinsert(cx, e, p) == seq![x] + reinsert(cx.drop_first(), e, p + 1));
        assert(reinsert(cx.drop_first(), e, p + 1) == Seq::<char>::empty());
    }
}

proof fn lemma_reinsert_push_esc(c: Seq<char>, e: Seq<(Seq<char>, nat)>, p: nat, t: (Seq<char>, nat))
    requires
        starts_within(e, p, p + c.len()),
        t.1 == p + c.len(),
    ensures
        reinsert(c, e.push(t), p) == reinsert(c, e, p) + t.0,
    decreases c.len() + e.len(),
{
    let et = e.push(t);
    if e.len() > 0 && (c.len() == 0 || e[0].1 == p) {
        assert(et[0] == e[0]);
        assert(et.drop_first() == e.drop_first().push(t));
        assert(starts_within(e.drop_first(), p, p + c.len())) by {
            assert forall|i: int, j: int| 0 <= i <= j < e.drop_first().len() implies e.drop_first()[i].1 <= e.drop_first()[j].1 by {
                assert(e.drop_first()[i] == e[i + 1]);
                assert(e.drop_first()[j] == e[j + 1]);
            }
            assert forall|i: int| 0 <= i < e.drop_first().len() implies p <= #[trigger] e.drop_first()[i].1 <= p + c.len() by {
                assert(e.drop_first()[i] == e[i + 1]);
            }
        }
        lemma_reinsert_push_esc(c, e.drop_first(), p, t);
        assert(reinsert(c, et, p) == e[0].0 + reinsert(c, e.drop_first().push(t), p));
    } else if e.len() == 0 {
        assert(et == seq![t]);
        if c.len() == 0 {
            assert(et.drop_first().len() == 0);
            assert(reinsert(c, et, p) == t.0 + reinsert(c, et.drop_first(), p));
            assert(reinsert(c, et.drop_first(), p) == Seq::<char>::empty());
            assert(reinsert(c, e, p) == Seq::<char>::empty());
        } else {
            assert(t.1 != p);
            lemma_reinsert_push_esc(c.drop_first(), e, p + 1, t);
            assert(reinsert(c, et, p) == seq![c[0]] + reinsert(c.drop_first(), et, p + 1));
            assert(reinsert(c, e, p) == seq![c[0]] + reinsert(c.drop_first(), e, p + 1));
        }
    } else {
        assert(c.len() > 0 && e[0].1 != p);
        assert(et[0] == e[0]);
        assert forall|i: int| 0 <= i < e.len() implies p + 1 <= #[trigger] e[i].1 by {
            assert(e[0].1 <= e[i].1);
        }
        lemma_reinsert_push_esc(c.drop_first(), e, p + 1, t);
        assert(reinsert(c, et, p) == seq![c[0]] + reinsert(c.drop_first(), et, p + 1));
    }
}

proof fn lemma_starts_push(e: Seq<(Seq<char>, nat)>, t: (Seq<char>, nat), hi: nat)
    requires
        starts_within(e, 0, hi),
        t.1 == hi,
    ensures
        starts_within(e.push(t), 0, hi),
{
    assert forall|i: int, j: int| 0 <= i <= j < e.push(t).len() implies e.push(t)[i].1 <= e.push(t)[j].1 by {
        if j == e.len() {
            assert(e.push(t)[j] == t);
        }
    }
    assert forall|i: int| 0 <= i < e.push(t).len() implies 0 <= #[trigger] e.push(t)[i].1 <= hi by {
    }
}

proof fn lemma_scan_reinsert(s: Seq<char>)
    requires
        forall|k: int| 0 <= k < s.len() && s[k] == '\n' ==> !(#[trigger] scan(s.take(k))).in_esc,
    ensures
        reinsert(scan(s).line, scan_escapes(scan(s)), 0) == s,
        starts_within(scan_escapes(scan(s)), 0, scan(s).line.len()),
        scan(s).in_esc ==> scan(s).cur_start == scan(s).line.len(),
    decreases s.len(),
{
    if s.len() == 0 {
        assert(reinsert(Seq::<char>::empty(), Seq::<(Seq<char>, nat)>::empty(), 0) == Seq::<char>::empty());
    } else {
        let q = s.drop_last();
        let c = s.last();
        assert forall|k: int| 0 <= k < q.len() && q[k] == '\n' implies !(#[trigger] scan(q.take(k))).in_esc by {
            assert(q.take(k) == s.take(k));
            assert(q[k] == s[k]);
        }
        lemma_scan_reinsert(q);
        lemma_scan_facts(q);
        let st = scan(q);
        let n = st.line.len();
        let ext = scan_escapes(st);
        assert(q.take(q.len() as int) == q);
        assert(s.take(q.len() as int) == q);
        assert(starts_within(st.esq, 0, n)) by {
            if st.in_esc {
                assert forall|i: int| 0 <= i < st.esq.len() implies 0 <= #[trigger] st.esq[i].1 <= n by {
                    assert(st.esq[i] == ext[i]);
                }
                assert forall|i: int, j: int| 0 <= i <= j < st.esq.len() implies st.esq[i].1 <= st.esq[j].1 by {
                    assert(st.esq[i] == ext[i]);
                    assert(st.esq[j] == ext[j]);
                }
            }
        }
        let ns = scan_step(st, c);
        assert(scan(s) == ns);
        if c == '\x1b' || (c == '[' && st.in_esc) || (st.in_esc && st.csi && !is_final_byte(c)) {
            let t = (st.cur.push(c), n);
            assert(scan_escapes(ns) == st.esq.push(t));
            lemma_reinsert_push_esc(st.line, st.esq, 0, t);
            lemma_starts_push(st.esq, t, n);
            if st.in_esc {
                lemma_reinsert_push_esc(st.line, st.esq, 0, (st.cur, n));
                assert(st.cur.push(c) == st.cur + seq![c]);
            } else {
                assert(st.cur.push(c) == seq![c]);
            }
        } else if st.in_esc && c != '\n' {
            let t = (st.cur.push(c), n);
            assert(scan_escapes(ns) == st.esq.push(t));
            lemma_reinsert_push_esc(st.line, st.esq, 0, t);
            lemma_reinsert_push_esc(st.line, st.esq, 0, (st.cur, n));
            lemma_starts_push(st.esq, t, n);
            assert(st.cur.push(c) == st.cur + seq![c]);
        } else if c == '\n' {
            assert(s[q.len() as int] == '\n');
            assert(!st.in_esc);
            let t = (seq!['\n'], n);
            assert(scan_escapes(ns) == st.esq.push(t));
            lemma_reinsert_push_esc(st.line, st.esq, 0, t);
            lemma_starts_push(st.esq, t, n);
        } else {
            assert(!st.in_esc);
            assert(scan_escapes(ns) == st.esq);
            lemma_reinsert_push_char(st.line, st.esq, 0, c);
        }
        assert(q.push(c) == s);
    }
}

proof fn lemma_sort_sorted(s: Seq<(Seq<char>, nat)>)
    requires
        starts_sorted(s),
    ensures
        sort_by_start(s) == s,
    decreases s.len(),
{
    if s.len() > 0 {
        let q = s.drop_last();
        assert(starts_sorted(q)) by {
            assert forall|i: int, j: int| 0 <= i <= j < q.len() implies q[i].1 <= q[j].1 by {
                assert(q[i] == s[i]);
                assert(q[j] == s[j]);
            }
        }
        lemma_sort_sorted(q);
        if q.len() > 0 {
            assert(q.last() == s[s.len() - 2]);
        }
        assert(q.push(s.last()) == s);
    }
}

/// Law: the raw text of a cell is the text it was made from, whenever that
/// text leaves no escape sequence open and has no newline inside one.
pub proof fn lemma_raw_content_roundtrip(raw: Seq<char>, c: Cell)
    requires
        escapes_closed(raw),
        is_new_cell(c, raw),
    ensures
        raw_text(c.content@, c.escape_sequences@) == raw,
{
    lemma_scan_reinsert(raw);
    lemma_sort_sorted(scan(raw).esq);
}

impl Cell {
    /// The cell for the raw text `content`: escape sequences and newlines go
    /// aside with their positions, the rest is the visible text.
    pub fn new(content: &str) -> (c: Self)
        ensures
            is_new_cell(c, content@),
            cell_model(c) == new_cell_model(content@),
    {
        let mut esq = Vec::<EscSeq>::new();
        let mut line = String::new();
        let mut e = EscSeq::new();
        let mut x = false;
        let mut is_csi = false;
        let mut i = 0usize;
        let total = content.unicode_len();
        for c in it: content.chars()
            invariant
                it.seq() == content@,
                total == content@.len(),
                scan(content@.take(it.index() as int)).line == line@,
                scan(content@.take(it.index() as int)).esq == esc_views(esq@),
                scan(content@.take(it.index() as int)).cur == e.seq@,
                scan(content@.take(it.index() as int)).cur_start == e.start,
                scan(content@.take(it.index() as int)).in_esc == x,
                scan(content@.take(it.index() as int)).csi == is_csi,
                esc_lens_ok(esq@),
                e.len == byte_len(e.seq@) as usize,
                i == line@.len(),
                line@.len() <= it.index(),
        {
            let ghost k = it.index() as int;
            proof {
                assert(content@.take(k + 1).drop_last() == content@.take(k));
                assert(content@.take(k + 1).last() == c);
            }
            if c == '\x1b' {
                x = true;
                e.set_start(c, i);
            } else if c == '[' && x {
                is_csi = true;
                e.push_seq(c);
            } else if '@' <= c && c <= '~' && x {
                e.push_seq(c);
                proof {
                    lemma_esc_views_push(esq@, e);
                }
                esq.push(e.clone());
                e = EscSeq::new();
                x = false;
                is_csi = false;
            } else if c == '\n' {
                let mut nl = EscSeq::new();
                nl.set_start(c, i);
                proof {
                    lemma_esc_views_push(esq@, nl);
                }
                esq.push(nl);
            } else if !x {
                line.push(c);
                i += 1;
            } else {
                e.push_seq(c);
                if !is_csi {
                    proof {
                        lemma_esc_views_push(esq@, e);
                    }
                    esq.push(e.clone());
                    e = EscSeq::new();
                    x = false;
                }
            }
        }
        proof {
            assert(content@.take(content@.len() as int) == content@);
        }
        let c = Self {
            content: line,
            escape_sequences: esq,
            width: 12usize,
            text_offset: 0usize,
            is_focused: false,
        };
        proof {
            lemma_new_cell_model(c, content@);
        }
        c
    }

    fn clone_escapes(&self) -> (copy: Vec<EscSeq>)
        ensures
            copy@.map_values(|e: EscSeq| esc_model(e)) == self.escape_sequences@.map_values(
                |e: EscSeq| esc_model(e),
            ),
    {
        let mut copy = Vec::<EscSeq>::new();
        let mut i: usize = 0;
        while i < self.escape_sequences.len()
            invariant
                i <= self.escape_sequences@.len(),
                copy@.len() == i,
                forall|k: int|
                    0 <= k < i ==> esc_view(#[trigger] copy@[k]) == esc_view(
                        self.escape_sequences@[k],
                    ) && copy@[k].len == self.escape_sequences@[k].len,
            decreases self.escape_sequences@.len() - i,
        {
            copy.push(self.escape_sequences[i].clone());
            i += 1;
        }
        assert(copy@.map_values(|e: EscSeq| esc_model(e)) =~= self.escape_sequences@.map_values(
            |e: EscSeq| esc_model(e),
        ));
        copy
    }

    /// The visible text of the cell.
    pub fn view(&self) -> (s: &str)
        ensures
            s@ == self.content@,
    {
        self.content.as_str()
    }

    /// The cell's text with its escape sequences and newlines put back, each
    /// before the visible character at its position.
    pub fn raw_content(&self) -> (raw: String)
        ensures
            raw@ == raw_text(self.content@, self.escape_sequences@),
    {
        let escapes = sort_escapes(&self.escape_sequences);
        let ghost ev = sort_by_start(esc_views(self.escape_sequences@));
        let chars = to_chars(self.content.as_str());
        let mut raw = String::new();
        let mut ei: usize = 0;
        let mut ci: usize = 0;
        assert(chars@.skip(0) == chars@);
        assert(ev.skip(0) == ev);
        while ci < chars.len()
            invariant
                ci <= chars@.len(),
                ei <= escapes@.len(),
                esc_views(escapes@) == ev,
                raw@ + reinsert(chars@.skip(ci as int), ev.skip(ei as int), ci as nat) == reinsert(
                    chars@,
                    ev,
                    0,
                ),
            decreases chars@.len() - ci, escapes@.len() - ei,
        {
            if ei < escapes.len() && escapes[ei].start == ci {
                proof {
                    assert(ev[ei as int] == esc_view(escapes@[ei as int]));
                    assert(ev.skip(ei as int).drop_first() == ev.skip(ei + 1));
                }
                push_text(&mut raw, escapes[ei].seq.as_str());
                ei += 1;
            } else {
                proof {
                    if ei < escapes@.len() {
                        assert(ev[ei as int] == esc_view(escapes@[ei as int]));
                    }
                    assert(chars@.skip(ci as int).drop_first() == chars@.skip(ci + 1));
                }
                raw.push(chars[ci]);
                ci += 1;
            }
        }
        while ei < escapes.len()
            invariant
                ci == chars@.len(),
                ei <= escapes@.len(),
                esc_views(escapes@) == ev,
                raw@ + reinsert(chars@.skip(ci as int), ev.skip(ei as int), ci as nat) == reinsert(
                    chars@,
                    ev,
                    0,
                ),
            decreases escapes@.len() - ei,
        {
            proof {
                assert(ev[ei as int] == esc_view(escapes@[ei as int]));
                assert(ev.skip(ei as int).drop_first() == ev.skip(ei + 1));
                assert(chars@.skip(ci as int).len() == 0);
            }
            push_text(&mut raw, escapes[ei].seq.as_str());
            ei += 1;
        }
        proof {
            assert(ev.skip(ei as int).len() == 0);
            assert(chars@.skip(ci as int).len() == 0);
        }
        raw
    }

    /// A copy of the cell.
    pub fn clone(&self) -> (c: Self)
        ensures
            cell_model(c) == cell_model(*self),
    {
        Self {
            content: self.content.clone(),
            escape_sequences: self.clone_escapes(),
            width: self.width,
            text_offset: self.text_offset,
            is_focused: self.is_focused,
        }
    }

    /// The number of visible characters.
    pub fn len(&self) -> (n: usize)
        ensures
            n == self.content@.len(),
    {
        self.content.as_str().unicode_len()
    }

    pub fn set_focused(&mut self, focused: bool)
        ensures
            *final(self) == (Cell { is_focused: focused, ..*old(self) }),
    {
        self.is_focused = focused;
    }

    /// Sets the horizontal text offset, at most so far that the last
    /// characters still fill the cell's width.
    pub fn set_text_offset(&mut self, val: usize)
        ensures
            *final(self) == (Cell {
                text_offset: min_usize(
                    val,
                    sat_sub(old(self).content@.len() as usize, old(self).width),
                ),
                ..*old(self)
            }),
    {
        let lim = sat_sub_exec(self.len(), self.width);
        self.text_offset = if val < lim {
            val
        } else {
            lim
        };
    }

    pub fn set_width(&mut self, w: usize)
        ensures
            *final(self) == (Cell { width: w, ..*old(self) }),
    {
        self.width = w;
    }
}

/// `a.min(b)`.
pub open spec fn min_usize(a: usize, b: usize) -> usize {
    if a < b {
        a
    } else {
        b
    }
}

/// The larger of two integers.
pub open spec fn max_int(a: int, b: int) -> int {
    if a < b {
        b
    } else {
        a
    }
}

/// `a.saturating_sub(b)`.
pub open spec fn sat_sub(a: usize, b: usize) -> usize {
    if a > b {
        (a - b) as usize
    } else {
        0
    }
}

/// `a.saturating_sub(b)`.
pub fn sat_sub_exec(a: usize, b: usize) -> (r: usize)
    ensures
        r == sat_sub(a, b),
{
    if a > b {
        a - b
    } else {
        0
    }
}

/// A copy of `v` sorted stably by position.
fn sort_escapes(v: &Vec<EscSeq>) -> (r: Vec<EscSeq>)
    ensures
        esc_views(r@) == sort_by_start(esc_views(v@)),
{
    let mut r: Vec<EscSeq> = Vec::new();
    let mut i: usize = 0;
    while i < v.len()
        invariant
            i <= v@.len(),
            esc_views(r@) == sort_by_start(esc_views(v@.take(i as int))),
        decreases v@.len() - i,
    {
        let e = v[i].clone();
        proof {
            assert(esc_views(v@.take(i + 1)).drop_last() == esc_views(v@.take(i as int)));
            assert(esc_views(v@.take(i + 1)).last() == esc_view(v@[i as int]));
        }
        insert_sorted(&mut r, e);
        i += 1;
    }
    assert(v@.take(v@.len() as int) == v@);
    r
}

fn insert_sorted(r: &mut Vec<EscSeq>, e: EscSeq)
    ensures
        esc_views(final(r)@) == insert_by_start(esc_views(old(r)@), esc_view(e)),
{
    let ghost s0 = esc_views(r@);
    let mut j = r.len();
    assert(s0.take(j as int) == s0);
    assert(s0.skip(j as int) == Seq::<(Seq<char>, nat)>::empty());
    assert(s0 + Seq::<(Seq<char>, nat)>::empty() == s0);
    while j > 0 && r[j - 1].start > e.start
        invariant
            j <= r@.len(),
            r@ == old(r)@,
            s0 == esc_views(r@),
            insert_by_start(s0, esc_view(e)) == insert_by_start(s0.take(j as int), esc_view(e))
                + s0.skip(j as int),
        decreases j,
    {
        proof {
            let t = s0.take(j as int);
            assert(t.last() == esc_view(r@[j - 1]));
            assert(t.drop_last() == s0.take(j - 1));
            assert(insert_by_start(t, esc_view(e)) == insert_by_start(t.drop_last(), esc_view(e)).push(t.last()));
            assert(s0.skip(j - 1) == seq![t.last()] + s0.skip(j as int));
            assert(insert_by_start(t.drop_last(), esc_view(e)).push(t.last()) + s0.skip(j as int)
                == insert_by_start(t.drop_last(), esc_view(e)) + s0.skip(j - 1));
        }
        j -= 1;
    }
    proof {
        let t = s0.take(j as int);
        if j > 0 {
            assert(t.last() == esc_view(r@[j - 1]));
        }
        assert(insert_by_start(t, esc_view(e)) == t.push(esc_view(e)));
    }
    r.insert(j, e);
    proof {
        assert(esc_views(r@) =~= s0.take(j as int).push(esc_view(e)) + s0.skip(j as int));
    }
}

} // verus!

verus! {

/// `RangeInclusive::start`: the lower bound of the range.
pub assume_specification<Idx>[ std::ops::RangeInclusive::<Idx>::start ](
    r: &std::ops::RangeInclusive<Idx>,
) -> (s: &Idx)
    ensures
        *s == r@.start,
;

/// `RangeInclusive::end`: the upper bound of the range.
pub assume_specification<Idx>[ std::ops::RangeInclusive::<Idx>::end ](
    r: &std::ops::RangeInclusive<Idx>,
) -> (e: &Idx)
    ensures
        *e == r@.end,
;

#[derive(Debug)]
pub struct Column {
    pub cells: Vec<Cell>,
    pub start: usize,
    pub width: usize,
    pub indices: Vec<usize>,
    pub padding: usize,
}

/// The cells of a column as plain values, in storage order.
pub open spec fn cells_model(v: Seq<Cell>) -> Seq<CellModel> {
    v.map_values(|c: Cell| cell_model(c))
}

impl Column {
    /// Whether the row indices are a permutation of the stored cells and the
    /// padding does not exceed them.
    pub open spec fn wf(&self) -> bool {
        &&& is_perm(self.indices@, self.cells@.len())
        &&& self.padding <= self.cells@.len()
    }

    /// The rows of the column in display order, padding rows included.
    pub open spec fn rows(&self) -> Seq<CellModel> {
        Seq::new(self.indices@.len(), |i: int| cell_model(self.cells@[self.indices@[i] as int]))
    }

    /// The number of rows shown: stored cells without the padding.
    pub open spec fn shown(&self) -> nat {
        (self.cells@.len() - self.padding) as nat
    }

    /// A column of 256 empty cells in storage order.
    pub fn new() -> (c: Self)
        ensures
            c.wf(),
            c.cells@.len() == 256,
            forall|k: int| 0 <= k < 256 ==> cell_model(#[trigger] c.cells@[k]) == new_cell_model(
                Seq::empty(),
            ),
            c.indices@ == identity(256),
            c.start == 0,
            c.width == 12,
            c.padding == 0,
    {
        let mut cells = Vec::<Cell>::with_capacity(256);
        let mut indices = Vec::<usize>::new();
        let mut i: usize = 0;
        while i < 256
            invariant
                i <= 256,
                cells@.len() == i,
                indices@ == identity(i as nat),
                forall|k: int| 0 <= k < i ==> cell_model(#[trigger] cells@[k]) == new_cell_model(
                    Seq::empty(),
                ),
            decreases 256 - i,
        {
            let c = Cell::new("");
            proof {
                reveal_strlit("");
            }
            cells.push(c);
            indices.push(i);
            i += 1;
            assert(indices@ =~= identity(i as nat));
        }
        Self { cells, start: 0usize, width: 12usize, indices, padding: 0usize }
    }

    /// A copy of the column in which no cell is focused.
    pub fn clone(&self) -> (c: Self)
        ensures
            c.cells@.len() == self.cells@.len(),
            forall|k: int|
                0 <= k < c.cells@.len() ==> cell_model(#[trigger] c.cells@[k]) == (CellModel {
                    is_focused: false,
                    ..cell_model(self.cells@[k])
                }),
            c.indices@ == self.indices@,
            c.start == self.start,
            c.width == self.width,
            c.padding == self.padding,
    {
        let mut cells = Vec::<Cell>::new();
        let mut i: usize = 0;
        while i < self.cells.len()
            invariant
                i <= self.cells@.len(),
                cells@.len() == i,
                forall|k: int|
                    0 <= k < i ==> cell_model(#[trigger] cells@[k]) == (CellModel {
                        is_focused: false,
                        ..cell_model(self.cells@[k])
                    }),
            decreases self.cells@.len() - i,
        {
            let mut c = self.cells[i].clone();
            c.is_focused = false;
            cells.push(c);
            i += 1;
        }
        let indices = self.indices.clone();
        Self { cells, start: self.start, width: self.width, indices, padding: self.padding }
    }

    /// Appends a cell as the last row.
    pub fn push_cell(&mut self, cell: Cell)
        requires
            old(self).wf(),
        ensures
            final(self).wf(),
            final(self).rows() == old(self).rows().push(cell_model(cell)),
            final(self).cells@ == old(self).cells@.push(cell),
            final(self).indices@ == old(self).indices@.push(old(self).indices@.len() as usize),
            final(self).padding == old(self).padding,
            final(self).start == old(self).start,
            final(self).width == old(self).width,
    {
        let n = self.indices.len();
        self.cells.push(cell);
        self.indices.push(n);
        assert(self.rows() =~= old(self).rows().push(cell_model(cell)));
    }

    /// Inserts a cell so that it becomes row `idx`; later rows move down.
    pub fn insert_cell(&mut self, idx: usize, cell: Cell)
        requires
            old(self).wf(),
            idx <= old(self).indices@.len(),
        ensures
            final(self).wf(),
            final(self).rows() == old(self).rows().insert(idx as int, cell_model(cell)),
            final(self).cells@.len() == old(self).cells@.len() + 1,
            final(self).padding == old(self).padding,
            final(self).start == old(self).start,
            final(self).width == old(self).width,
    {
        let n = self.indices.len();
        if idx < n {
            let real_idx = self.indices[idx];
            let ghost old_ind = self.indices@;
            let ghost old_cells = self.cells@;
            self.cells.insert(real_idx, cell);
            self.indices.push(0usize);
            let mut i = n;
            while i > idx
                invariant
                    idx <= i <= n,
                    n == old_ind.len(),
                    self.indices@.len() == n + 1,
                    forall|j: int|
                        i < j <= n ==> #[trigger] self.indices@[j] == shift_up(
                            old_ind[j - 1],
                            real_idx,
                        ),
                    forall|j: int| 0 <= j <= idx ==> #[trigger] self.indices@[j] == old_ind[j],
                    forall|j: int| idx < j < i ==> #[trigger] self.indices@[j] == old_ind[j],
                    forall|j: int| 0 <= j < n ==> #[trigger] old_ind[j] < old_cells.len(),
                    old_cells.len() == n,
                    real_idx == old_ind[idx as int],
                    is_perm(old_ind, old_cells.len()),
                    self.cells@ == old_cells.insert(real_idx as int, cell),
                    self.padding == old(self).padding,
                    self.start == old(self).start,
                    self.width == old(self).width,
                decreases i,
            {
                let v = self.indices[i - 1];
                let nv = if v >= real_idx {
                    v + 1
                } else {
                    v
                };
                self.indices.set(i, nv);
                i -= 1;
            }
            let mut k: usize = 0;
            while k < idx
                invariant
                    k <= idx < n,
                    n == old_ind.len(),
                    self.indices@.len() == n + 1,
                    forall|j: int|
                        idx < j <= n ==> #[trigger] self.indices@[j] == shift_up(
                            old_ind[j - 1],
                            real_idx,
                        ),
                    forall|j: int| 0 <= j < k ==> #[trigger] self.indices@[j] == shift_up(
                        old_ind[j],
                        real_idx,
                    ),
                    forall|j: int| k <= j <= idx ==> #[trigger] self.indices@[j] == old_ind[j],
                    forall|j: int| 0 <= j < n ==> #[trigger] old_ind[j] < old_cells.len(),
                    old_cells.len() == n,
                    real_idx == old_ind[idx as int],
                    is_perm(old_ind, old_cells.len()),
                    self.cells@ == old_cells.insert(real_idx as int, cell),
                    self.padding == old(self).padding,
                    self.start == old(self).start,
                    self.width == old(self).width,
                decreases idx - k,
            {
                let v = self.indices[k];
                let nv = if v >= real_idx {
                    v + 1
                } else {
                    v
                };
                self.indices.set(k, nv);
                k += 1;
            }
            proof {
                let ni = self.indices@;
                let nc = self.cells@;
                assert forall|j: int| 0 <= j < ni.len() implies #[trigger] ni[j] < nc.len() by {}
                assert forall|a: int, b: int| 0 <= a < b < ni.len() implies ni[a] != ni[b] by {
                    if a < idx && b < idx {
                        assert(old_ind[a] != old_ind[b]);
                    } else if a < idx && b == idx {
                    } else if a < idx && b > idx {
                        assert(old_ind[a] != old_ind[b - 1]);
                    } else if a == idx {
                    } else {
                        assert(old_ind[a - 1] != old_ind[b - 1]);
                    }
                }
                assert forall|j: int| 0 <= j < ni.len() implies #[trigger] self.rows()[j]
                    == old(self).rows().insert(idx as int, cell_model(cell))[j] by {
                    if j < idx {
                        assert(nc[ni[j] as int] == old_cells[old_ind[j] as int]);
                    } else if j > idx {
                        assert(nc[ni[j] as int] == old_cells[old_ind[j - 1] as int]);
                    }
                }
                assert(self.rows() =~= old(self).rows().insert(idx as int, cell_model(cell)));
            }
        } else {
            self.cells.push(cell);
            self.indices.push(n);
            assert(self.rows() =~= old(self).rows().insert(idx as int, cell_model(cell)));
        }
    }

    /// Removes row `idx` and returns its cell; later rows move up.
    pub fn remove_cell(&mut self, idx: usize) -> (cell: Cell)
        requires
            old(self).wf(),
            idx < old(self).indices@.len(),
        ensures
            is_perm(final(self).indices@, final(self).cells@.len()),
            final(self).rows() == old(self).rows().remove(idx as int),
            cell_model(cell) == old(self).rows()[idx as int],
            final(self).cells@.len() == old(self).cells@.len() - 1,
            final(self).padding == old(self).padding,
            final(self).start == old(self).start,
            final(self).width == old(self).width,
    {
        let n = self.indices.len();
        let real_idx = self.indices[idx];
        let ghost old_ind = self.indices@;
        let ghost old_cells = self.cells@;
        let cell = self.cells.remove(real_idx);
        let mut i: usize = 0;
        while i < idx
            invariant
                i <= idx < n,
                n == old_ind.len(),
                self.indices@.len() == n,
                forall|j: int| 0 <= j < i ==> #[trigger] self.indices@[j] == shift_down(
                    old_ind[j],
                    real_idx,
                ),
                forall|j: int| i <= j < n ==> #[trigger] self.indices@[j] == old_ind[j],
                real_idx == old_ind[idx as int],
                is_perm(old_ind, old_cells.len()),
                self.cells@ == old_cells.remove(real_idx as int),
                self.padding == old(self).padding,
                self.start == old(self).start,
                self.width == old(self).width,
            decreases idx - i,
        {
            if self.indices[i] > real_idx {
                let v = self.indices[i] - 1;
                self.indices.set(i, v);
            }
            i += 1;
        }
        let mut i = idx + 1;
        while i < n
            invariant
                idx < i <= n,
                n == old_ind.len(),
                self.indices@.len() == n,
                forall|j: int| 0 <= j < idx ==> #[trigger] self.indices@[j] == shift_down(
                    old_ind[j],
                    real_idx,
                ),
                forall|j: int| idx <= j < i - 1 ==> #[trigger] self.indices@[j] == shift_down(
                    old_ind[j + 1],
                    real_idx,
                ),
                forall|j: int| i <= j < n ==> #[trigger] self.indices@[j] == old_ind[j],
                real_idx == old_ind[idx as int],
                is_perm(old_ind, old_cells.len()),
                self.cells@ == old_cells.remove(real_idx as int),
                self.padding == old(self).padding,
                self.start == old(self).start,
                self.width == old(self).width,
            decreases n - i,
        {
            let shifted = self.indices[i];
            let nv = if shifted > real_idx {
                shifted - 1
            } else {
                shifted
            };
            self.indices.set(i - 1, nv);
            i += 1;
        }
        self.indices.pop();
        proof {
            let ni = self.indices@;
            let nc = self.cells@;
            assert forall|j: int| 0 <= j < ni.len() implies #[trigger] ni[j] < nc.len() by {
                if j < idx {
                    assert(old_ind[j] != real_idx);
                } else {
                    assert(old_ind[j + 1] != real_idx);
                }
            }
            assert forall|a: int, b: int| 0 <= a < b < ni.len() implies ni[a] != ni[b] by {
                let oa = if a < idx {
                    a
                } else {
                    a + 1
                };
                let ob = if b < idx {
                    b
                } else {
                    b + 1
                };
                assert(old_ind[oa] != old_ind[ob]);
                assert(old_ind[oa] != real_idx);
                assert(old_ind[ob] != real_idx);
            }
            assert forall|j: int| 0 <= j < ni.len() implies #[trigger] self.rows()[j]
                == old(self).rows().remove(idx as int)[j] by {
                if j < idx {
                    assert(old_ind[j] != real_idx);
                    assert(nc[ni[j] as int] == old_cells[old_ind[j] as int]);
                } else {
                    assert(old_ind[j + 1] != real_idx);
                    assert(nc[ni[j] as int] == old_cells[old_ind[j + 1] as int]);
                }
            }
            assert(self.rows() =~= old(self).rows().remove(idx as int));
        }
        cell
    }

    /// Stores the shown rows in display order: the cells are copied in row
    /// order, the padding is dropped and the row indices become the identity.
    pub fn reindex(&mut self)
        requires
            old(self).wf(),
        ensures
            final(self).wf(),
            cells_model(final(self).cells@) == old(self).rows().take(old(self).shown() as int),
            final(self).indices@ == identity(old(self).shown()),
            final(self).padding == 0,
            final(self).start == old(self).start,
            final(self).width == old(self).width,
    {
        let n = self.len();
        let mut reindexed = Vec::<Cell>::with_capacity(self.cells.len());
        let mut i: usize = 0;
        while i < n
            invariant
                self.wf(),
                n == self.shown(),
                i <= n,
                *self == *old(self),
                reindexed@.len() == i,
                forall|k: int| 0 <= k < i ==> cell_model(#[trigger] reindexed@[k]) == self.rows()[k],
            decreases n - i,
        {
            reindexed.push(self.cells[self.indices[i]].clone());
            i += 1;
        }
        let mut ind = Vec::<usize>::new();
        let mut j: usize = 0;
        while j < n
            invariant
                j <= n,
                ind@ == identity(j as nat),
            decreases n - j,
        {
            ind.push(j);
            j += 1;
            assert(ind@ =~= identity(j as nat));
        }
        self.cells = reindexed;
        self.indices = ind;
        self.padding = 0;
        assert(cells_model(self.cells@) =~= old(self).rows().take(n as int));
    }

    /// Removes the shown rows `start..=end` (after storing the rows in display
    /// order) and returns their cells.
    pub fn drain_cells(&mut self, range: std::ops::RangeInclusive<usize>) -> (drained: Vec<Cell>)
        requires
            old(self).wf(),
            range@.start <= range@.end + 1,
            range@.end < old(self).shown(),
        ensures
            final(self).wf(),
            cells_model(drained@) == old(self).rows().take(old(self).shown() as int).subrange(
                range@.start as int,
                range@.end + 1,
            ),
            cells_model(final(self).cells@) == old(self).rows().take(
                old(self).shown() as int,
            ).take(range@.start as int) + old(self).rows().take(old(self).shown() as int).skip(
                range@.end + 1,
            ),
            final(self).indices@ == identity(final(self).cells@.len()),
            final(self).padding == 0,
            final(self).start == old(self).start,
            final(self).width == old(self).width,
    {
        let start = *range.start();
        let end = *range.end();
        self.reindex();
        let ghost r = cells_model(self.cells@);
        assert(self.cells@.len() == old(self).shown());
        let n_all = self.cells.len();
        assert(end < n_all);
        let mut tail = self.cells.split_off(start);
        let mut rest = tail.split_off(end + 1 - start);
        self.cells.append(&mut rest);
        let n = self.cells.len();
        let mut ind = Vec::<usize>::new();
        let mut j: usize = 0;
        while j < n
            invariant
                j <= n,
                ind@ == identity(j as nat),
            decreases n - j,
        {
            ind.push(j);
            j += 1;
            assert(ind@ =~= identity(j as nat));
        }
        self.indices = ind;
        assert(cells_model(tail@) =~= r.subrange(start as int, end + 1));
        assert(cells_model(self.cells@) =~= r.take(start as int) + r.skip(end + 1));
        tail
    }

    /// Exchanges rows `a` and `b`.
    pub fn swap_cells(&mut self, a: usize, b: usize)
        requires
            a < old(self).indices@.len(),
            b < old(self).indices@.len(),
        ensures
            final(self).indices@ == old(self).indices@.update(a as int, old(self).indices@[b as int]).update(
                b as int,
                old(self).indices@[a as int],
            ),
            final(self).cells@ == old(self).cells@,
            final(self).padding == old(self).padding,
            final(self).start == old(self).start,
            final(self).width == old(self).width,
            old(self).wf() ==> final(self).wf(),
    {
        let va = self.indices[a];
        let vb = self.indices[b];
        self.indices.set(a, vb);
        self.indices.set(b, va);
        proof {
            if old(self).wf() {
                let ni = self.indices@;
                let oi = old(self).indices@;
                assert forall|x: int, y: int| 0 <= x < y < ni.len() implies ni[x] != ni[y] by {
                    let ox = if x == b {
                        a as int
                    } else if x == a {
                        b as int
                    } else {
                        x
                    };
                    let oy = if y == b {
                        a as int
                    } else if y == a {
                        b as int
                    } else {
                        y
                    };
                    assert(ni[x] == oi[ox]);
                    assert(ni[y] == oi[oy]);
                }
            }
        }
    }

    /// Moves row `start` down to row `end`, each row in between moving up by one.
    pub fn bubble_up(&mut self, start: usize, end: usize)
        requires
            start < end ==> end < old(self).indices@.len(),
        ensures
            final(self).indices@ == rotate_up(old(self).indices@, start as int, end as int),
            final(self).cells@ == old(self).cells@,
            final(self).padding == old(self).padding,
            final(self).start == old(self).start,
            final(self).width == old(self).width,
            old(self).wf() ==> final(self).wf(),
    {
        let ghost o = self.indices@;
        let mut i = start;
        while i < end
            invariant
                start <= i,
                start < end ==> i <= end,
                start < end ==> end < o.len(),
                start >= end ==> i == start,
                self.indices@.len() == o.len(),
                self.cells@ == old(self).cells@,
                self.padding == old(self).padding,
                self.start == old(self).start,
                self.width == old(self).width,
                old(self).wf() ==> self.wf(),
                start < end ==> self.indices@ == rotate_up(o, start as int, i as int),
                start >= end ==> self.indices@ == o,
            decreases end - i,
        {
            self.swap_cells(i, i + 1);
            i += 1;
            proof {
                assert(self.indices@ =~= rotate_up(o, start as int, i as int));
            }
        }
        proof {
            if start < end {
                assert(i == end);
            } else {
                assert(rotate_up(o, start as int, end as int) == o);
            }
        }
    }

    /// Moves row `start` up to row `end`, each row in between moving down by one.
    pub fn bubble_down(&mut self, start: usize, end: usize)
        requires
            end < usize::MAX,
            end < start ==> start < old(self).indices@.len(),
        ensures
            final(self).indices@ == rotate_down(old(self).indices@, start as int, end as int),
            final(self).cells@ == old(self).cells@,
            final(self).padding == old(self).padding,
            final(self).start == old(self).start,
            final(self).width == old(self).width,
            old(self).wf() ==> final(self).wf(),
    {
        let ghost o = self.indices@;
        let mut i = start;
        while i > end
            invariant
                i <= start,
                end < start ==> end <= i,
                end < start ==> start < o.len(),
                end >= start ==> i == start,
                self.indices@.len() == o.len(),
                self.cells@ == old(self).cells@,
                self.padding == old(self).padding,
                self.start == old(self).start,
                self.width == old(self).width,
                old(self).wf() ==> self.wf(),
                end < start ==> self.indices@ == rotate_down(o, start as int, i as int),
                end >= start ==> self.indices@ == o,
            decreases i,
        {
            self.swap_cells(i, i - 1);
            i -= 1;
            proof {
                assert(self.indices@ =~= rotate_down(o, start as int, i as int));
            }
        }
        proof {
            if end < start {
                assert(i == end);
            } else {
                assert(rotate_down(o, start as int, end as int) == o);
            }
        }
    }

    /// Orders the rows so that the first row of every distinct non-empty text
    /// comes first, then as many new empty cells as there are other rows, then
    /// those other rows (empty texts and repeats), which the padding hides.
    /// Nothing changes when every shown row is already such a first row.
    /// Returns the number of distinct non-empty texts.
    pub fn make_unique(&mut self) -> (uq_len: usize)
        requires
            old(self).wf(),
        ensures
            unique_post(*old(self), *final(self), uq_len),
            final(self).wf(),
    {
        let ghost oc = self.cells@;
        let ghost oi = self.indices@;
        let mut seen_idx = Vec::<usize>::new();
        let mut u_idx = Vec::<usize>::new();
        let mut i: usize = 0;
        while i < self.indices.len()
            invariant
                *self == *old(self),
                self.wf(),
                oc == self.cells@,
                oi == self.indices@,
                i <= oi.len(),
                (u_idx@, seen_idx@) == uniq_split(oc, oi.take(i as int)),
            decreases oi.len() - i,
        {
            let cur = self.indices[i];
            let ghost u0 = u_idx@;
            let ghost d0 = seen_idx@;
            proof {
                assert forall|a: int, b: int| 0 <= a < b < oi.take(i as int).len() implies oi.take(i as int)[a] != oi.take(i as int)[b] by {
                    assert(oi[a] != oi[b]);
                }
                assert forall|a: int| 0 <= a < oi.take(i as int).len() implies #[trigger] oi.take(i as int)[a] < oc.len() by {
                    assert(oi[a] < oc.len());
                }
                lemma_uniq_split_elems(oc, oi.take(i as int));
                assert(oi.take(i + 1).drop_last() == oi.take(i as int));
                assert(oi.take(i + 1).last() == cur);
            }
            if self.cells[cur].content.as_str().unicode_len() == 0 {
                seen_idx.push(cur);
            } else {
                let mut s: usize = 0;
                let mut found = false;
                while s < u_idx.len()
                    invariant
                        s <= u_idx@.len(),
                        cur < oc.len(),
                        oc == self.cells@,
                        forall|j: int| 0 <= j < u_idx@.len() ==> #[trigger] u_idx@[j] < oc.len(),
                        !found ==> forall|j: int|
                            0 <= j < s ==> oc[#[trigger] u_idx@[j] as int].content@ != oc[cur as int].content@,
                        found ==> exists|j: int|
                            0 <= j < u_idx@.len() && oc[#[trigger] u_idx@[j] as int].content@ == oc[cur as int].content@,
                    ensures
                        !found ==> forall|j: int|
                            0 <= j < u_idx@.len() ==> oc[#[trigger] u_idx@[j] as int].content@ != oc[cur as int].content@,
                        found ==> exists|j: int|
                            0 <= j < u_idx@.len() && oc[#[trigger] u_idx@[j] as int].content@ == oc[cur as int].content@,
                    decreases u_idx@.len() - s,
                {
                    if self.cells[cur].content == self.cells[u_idx[s]].content {
                        found = true;
                        break;
                    }
                    s += 1;
                }
                if !found {
                    assert(!(exists|j: int|
                        0 <= j < u0.len() && oc[#[trigger] u0[j] as int].content@ == oc[cur as int].content@));
                    u_idx.push(cur);
                } else {
                    seen_idx.push(cur);
                }
            }
            proof {
                let t = oi.take(i + 1);
                assert(t.drop_last() == oi.take(i as int));
                assert(t.last() == cur);
                assert(uniq_split(oc, t.drop_last()) == (u0, d0));
            }
            i += 1;
        }
        proof {
            assert(oi.take(oi.len() as int) == oi);
            lemma_uniq_split_elems(oc, oi);
        }
        let uq_len = u_idx.len();
        let n0 = self.cells.len();
        let p = self.padding;
        let unchanged = p <= n0 - p && uq_len == n0 - p - p;
        if !unchanged {
            let seen_len = seen_idx.len();
            let mut k: usize = 0;
            while k < seen_len
                invariant
                    k <= seen_len,
                    n0 == oc.len(),
                    self.cells@.len() == n0 + k,
                    self.cells@.take(n0 as int) == oc,
                    forall|j: int| n0 <= j < n0 + k ==> cell_model(#[trigger] self.cells@[j]) == new_cell_model(Seq::empty()),
                    u_idx@.len() == uniq_split(oc, oi).0.len() + k,
                    u_idx@.take(uniq_split(oc, oi).0.len() as int) == uniq_split(oc, oi).0,
                    forall|j: int| 0 <= j < k ==> #[trigger] u_idx@[uniq_split(oc, oi).0.len() + j] == n0 + j,
                    seen_idx@ == uniq_split(oc, oi).1,
                    seen_len == seen_idx@.len(),
                    self.padding == p,
                    p <= n0,
                    self.indices@ == oi,
                    self.start == old(self).start,
                    self.width == old(self).width,
                decreases seen_len - k,
            {
                let nc = self.cells.len();
                u_idx.push(nc);
                let c = Cell::new("");
                proof {
                    reveal_strlit("");
                }
                self.cells.push(c);
                k += 1;
                assert(self.cells@.take(n0 as int) =~= oc);
            }
            let total = self.cells.len();
            assert(total == n0 + seen_len);
            u_idx.append(&mut seen_idx);
            self.indices = u_idx;
            self.padding = p + seen_len;
            proof {
                let u = uniq_split(oc, oi).0;
                let d = uniq_split(oc, oi).1;
                let ni = self.indices@;
                let mid = Seq::new(seen_len as nat, |j: int| (n0 + j) as usize);
                assert forall|j: int| 0 <= j < ni.len() implies #[trigger] ni[j] == (u + mid + d)[j] by {
                    if j < u.len() {
                        assert(ni[j] == u[j]);
                    } else if j < u.len() + seen_len {
                        let q = j - u.len();
                        assert(ni[u.len() + q] == n0 + q);
                    } else {
                        assert(ni[j] == d[j - u.len() - seen_len]);
                    }
                }
                assert(ni =~= u + mid + d);
                lemma_unique_perm(oc, oi, seen_len as nat);
            }
        }
        uq_len
    }

    /// Shows the stored cells again in storage order and drops the padding cells.
    pub fn revert(&mut self)
        requires
            old(self).padding <= old(self).cells@.len(),
        ensures
            revert_post(*old(self), *final(self)),
            final(self).wf(),
    {
        let n = self.len();
        let mut ind = Vec::<usize>::new();
        let mut j: usize = 0;
        while j < n
            invariant
                j <= n,
                ind@ == identity(j as nat),
            decreases n - j,
        {
            ind.push(j);
            j += 1;
            assert(ind@ =~= identity(j as nat));
        }
        self.indices = ind;
        self.cells.truncate(n);
        self.padding = 0;
    }

    pub fn set_start(&mut self, st: usize)
        ensures
            *final(self) == (Column { start: st, ..*old(self) }),
    {
        self.start = st;
    }

    /// Sets the width of the column and of each of its cells.
    pub fn set_width(&mut self, w: usize)
        ensures
            final(self).width == w,
            cells_model(final(self).cells@) == cells_model(old(self).cells@).map_values(
                |c: CellModel| CellModel { width: w, ..c },
            ),
            final(self).indices@ == old(self).indices@,
            final(self).padding == old(self).padding,
            final(self).start == old(self).start,
            old(self).wf() ==> final(self).wf(),
    {
        self.width = w;
        let mut i: usize = 0;
        while i < self.cells.len()
            invariant
                i <= self.cells@.len(),
                self.cells@.len() == old(self).cells@.len(),
                forall|k: int|
                    0 <= k < i ==> cell_model(#[trigger] self.cells@[k]) == (CellModel {
                        width: w,
                        ..cell_model(old(self).cells@[k])
                    }),
                forall|k: int|
                    i <= k < self.cells@.len() ==> #[trigger] self.cells@[k] == old(self).cells@[k],
                self.width == w,
                self.indices@ == old(self).indices@,
                self.padding == old(self).padding,
                self.start == old(self).start,
            decreases self.cells@.len() - i,
        {
            let mut c = self.cells.remove(i);
            c.width = w;
            self.cells.insert(i, c);
            i += 1;
        }
        assert(cells_model(self.cells@) =~= cells_model(old(self).cells@).map_values(
            |c: CellModel| CellModel { width: w, ..c },
        ));
    }

    /// The number of terminal columns the column takes: its width plus three
    /// for the separators.
    pub fn col_width(&self) -> (r: usize)
        requires
            self.width <= usize::MAX - 3,
        ensures
            r == self.width + 3,
    {
        return self.width + 3;
    }

    /// The visible text of row `idx`.
    pub fn view_cell(&self, idx: usize) -> (s: &str)
        requires
            self.wf(),
            idx < self.indices@.len(),
        ensures
            s@ == self.rows()[idx as int].content,
    {
        let real_idx = self.indices[idx];
        self.cells[real_idx].view()
    }

    /// The cell of row `idx`, to change in place.
    pub fn get_cell(&mut self, idx: usize) -> (c: &mut Cell)
        requires
            old(self).wf(),
            idx < old(self).indices@.len(),
        ensures
            *c == old(self).cells@[old(self).indices@[idx as int] as int],
            final(self).cells@ == old(self).cells@.update(
                old(self).indices@[idx as int] as int,
                *final(c),
            ),
            final(self).indices@ == old(self).indices@,
            final(self).padding == old(self).padding,
            final(self).start == old(self).start,
            final(self).width == old(self).width,
    {
        let real_idx = self.indices[idx];
        &mut self.cells[real_idx]
    }

    /// The number of shown rows.
    pub fn len(&self) -> (n: usize)
        requires
            self.padding <= self.cells@.len(),
        ensures
            n == self.shown(),
    {
        self.cells.len() - self.padding
    }
}

/// The storage index `x` after a cell was inserted at storage index `r`.
pub open spec fn shift_up(x: usize, r: usize) -> usize {
    if x >= r {
        (x + 1) as usize
    } else {
        x
    }
}

/// The storage index `x` after the cell at storage index `r` was removed.
pub open spec fn shift_down(x: usize, r: usize) -> usize {
    if x > r {
        (x - 1) as usize
    } else {
        x
    }
}

} // verus!

verus! {

/// `s` with the element at `a` moved to position `b >= a`.
pub open spec fn rotate_up<T>(s: Seq<T>, a: int, b: int) -> Seq<T> {
    if a < b {
        s.take(a) + s.subrange(a + 1, b + 1) + seq![s[a]] + s.skip(b + 1)
    } else {
        s
    }
}

/// `s` with the element at `a` moved to position `b <= a`.
pub open spec fn rotate_down<T>(s: Seq<T>, a: int, b: int) -> Seq<T> {
    if b < a {
        s.take(b) + seq![s[a]] + s.subrange(b, a) + s.skip(a + 1)
    } else {
        s
    }
}

} // verus!

verus! {

/// Splits the row indices `ind` into the rows that hold the first occurrence
/// of a non-empty text and all other rows, each in row order.
pub open spec fn uniq_split(cells: Seq<Cell>, ind: Seq<usize>) -> (Seq<usize>, Seq<usize>)
    decreases ind.len(),
{
    if ind.len() == 0 {
        (Seq::empty(), Seq::empty())
    } else {
        let prev = uniq_split(cells, ind.drop_last());
        let x = ind.last();
        if cells[x as int].content@.len() > 0 && !(exists|j: int|
            0 <= j < prev.0.len() && cells[#[trigger] prev.0[j] as int].content@ == cells[x as int].content@) {
            (prev.0.push(x), prev.1)
        } else {
            (prev.0, prev.1.push(x))
        }
    }
}

/// What `make_unique` does to a column `o`, giving `f` and the count `r`.
pub open spec fn unique_post(o: Column, f: Column, r: usize) -> bool {
    let u = uniq_split(o.cells@, o.indices@).0;
    let d = uniq_split(o.cells@, o.indices@).1;
    let n0 = o.cells@.len();
    &&& r == u.len()
    &&& f.start == o.start
    &&& f.width == o.width
    &&& if n0 >= 2 * o.padding && r == n0 - 2 * o.padding {
        f == o
    } else {
        &&& f.padding == o.padding + d.len()
        &&& f.cells@.len() == n0 + d.len()
        &&& f.cells@.take(n0 as int) == o.cells@
        &&& (forall|j: int| n0 <= j < f.cells@.len() ==> cell_model(#[trigger] f.cells@[j]) == new_cell_model(Seq::empty()))
        &&& f.indices@ == u + Seq::new(d.len(), |j: int| (n0 + j) as usize) + d
    }
}

/// What `revert` does to a column `o`, giving `f`.
pub open spec fn revert_post(o: Column, f: Column) -> bool {
    &&& f.cells@ == o.cells@.take(o.shown() as int)
    &&& f.indices@ == identity(o.shown())
    &&& f.padding == 0
    &&& f.start == o.start
    &&& f.width == o.width
}

proof fn lemma_uniq_split_elems(cells: Seq<Cell>, ind: Seq<usize>)
    requires
        forall|i: int, j: int| 0 <= i < j < ind.len() ==> ind[i] != ind[j],
        forall|i: int| 0 <= i < ind.len() ==> #[trigger] ind[i] < cells.len(),
    ensures
        uniq_split(cells, ind).0.len() + uniq_split(cells, ind).1.len() == ind.len(),
        forall|i: int| 0 <= i < uniq_split(cells, ind).0.len() ==> ind.contains(#[trigger] uniq_split(cells, ind).0[i]),
        forall|i: int| 0 <= i < uniq_split(cells, ind).1.len() ==> ind.contains(#[trigger] uniq_split(cells, ind).1[i]),
        forall|i: int| 0 <= i < uniq_split(cells, ind).0.len() ==> #[trigger] uniq_split(cells, ind).0[i] < cells.len(),
        forall|i: int| 0 <= i < uniq_split(cells, ind).1.len() ==> #[trigger] uniq_split(cells, ind).1[i] < cells.len(),
        (uniq_split(cells, ind).0 + uniq_split(cells, ind).1).no_duplicates(),
    decreases ind.len(),
{
    if ind.len() > 0 {
        let q = ind.drop_last();
        lemma_uniq_split_elems(cells, q);
        let (u, d) = uniq_split(cells, q);
        let x = ind.last();
        assert forall|i: int| 0 <= i < u.len() implies ind.contains(#[trigger] u[i]) by {
            let k = choose|k: int| 0 <= k < q.len() && q[k] == u[i];
            assert(ind[k] == u[i]);
        }
        assert forall|i: int| 0 <= i < d.len() implies ind.contains(#[trigger] d[i]) by {
            let k = choose|k: int| 0 <= k < q.len() && q[k] == d[i];
            assert(ind[k] == d[i]);
        }
        assert(!q.contains(x)) by {
            if q.contains(x) {
                let k = choose|k: int| 0 <= k < q.len() && q[k] == x;
                assert(ind[k] == ind[ind.len() - 1]);
            }
        }
        assert(ind.contains(x)) by {
            assert(ind[ind.len() - 1] == x);
        }
        let (nu, nd) = uniq_split(cells, ind);
        assert forall|i: int| 0 <= i < (u + d).len() implies q.contains(#[trigger] (u + d)[i]) by {
            if i < u.len() {
                assert((u + d)[i] == u[i]);
            } else {
                assert((u + d)[i] == d[i - u.len()]);
            }
        }
        assert((nu + nd).no_duplicates()) by {
            assert forall|a: int, b: int| 0 <= a < (nu + nd).len() && 0 <= b < (nu + nd).len() && a != b implies (nu + nd)[a] != (nu + nd)[b] by {
                let ud = u + d;
                let posx = if nu.len() > u.len() { u.len() as int } else { (nu + nd).len() - 1 };
                let map_back = |i: int| if nu.len() > u.len() {
                    if i < u.len() { i } else if i == u.len() { -1 } else { i - 1 }
                } else {
                    if i < (nu + nd).len() - 1 { i } else { -1 }
                };
                if nu.len() > u.len() {
                    assert(nu == u.push(x));
                    assert(nd == d);
                } else {
                    assert(nu == u);
                    assert(nd == d.push(x));
                }
                let ma = map_back(a);
                let mb = map_back(b);
                if ma >= 0 {
                    assert((nu + nd)[a] == ud[ma]);
                }
                if mb >= 0 {
                    assert((nu + nd)[b] == ud[mb]);
                }
                if ma < 0 {
                    assert((nu + nd)[a] == x);
                    assert(q.contains(ud[mb]));
                }
                if mb < 0 {
                    assert((nu + nd)[b] == x);
                    assert(q.contains(ud[ma]));
                }
            }
        }
    }
}

proof fn lemma_unique_perm(cells: Seq<Cell>, ind: Seq<usize>, p: nat)
    requires
        is_perm(ind, cells.len()),
        p == uniq_split(cells, ind).1.len(),
        cells.len() + p <= usize::MAX,
    ensures
        is_perm(
            uniq_split(cells, ind).0 + Seq::new(p, |j: int| (cells.len() + j) as usize) + uniq_split(cells, ind).1,
            cells.len() + p,
        ),
{
    lemma_uniq_split_elems(cells, ind);
    let u = uniq_split(cells, ind).0;
    let d = uniq_split(cells, ind).1;
    let n0 = cells.len();
    let mid = Seq::new(p, |j: int| (n0 + j) as usize);
    let all = u + mid + d;
    assert forall|j: int| 0 <= j < p implies #[trigger] mid[j] == n0 + j by {}
    assert forall|i: int| 0 <= i < all.len() implies #[trigger] all[i] < n0 + p by {
        if i < u.len() {
            assert(all[i] == u[i]);
        } else if i < u.len() + p {
            assert(all[i] == mid[i - u.len()]);
        } else {
            assert(all[i] == d[i - u.len() - p]);
        }
    }
    assert forall|a: int, b: int| 0 <= a < b < all.len() implies all[a] != all[b] by {
        let ud = u + d;
        let ia = a < u.len() || a >= u.len() + p;
        let ib = b < u.len() || b >= u.len() + p;
        let ma = if a < u.len() { a } else { a - p };
        let mb = if b < u.len() { b } else { b - p };
        if ia {
            if a < u.len() {
                assert(all[a] == u[a]);
                assert(ud[ma] == u[a]);
            } else {
                assert(all[a] == d[a - u.len() - p]);
                assert(ud[ma] == d[a - u.len() - p]);
            }
        }
        if ib {
            if b < u.len() {
                assert(all[b] == u[b]);
                assert(ud[mb] == u[b]);
            } else {
                assert(all[b] == d[b - u.len() - p]);
                assert(ud[mb] == d[b - u.len() - p]);
            }
        }
        if ia && ib {
            assert(ud.no_duplicates());
        } else if !ia && !ib {
            assert(all[a] == mid[a - u.len()]);
            assert(all[b] == mid[b - u.len()]);
        } else if ia {
            assert(all[b] == mid[b - u.len()]);
            assert(all[b] >= n0);
            assert(ud[ma] < n0);
        } else {
            assert(all[a] == mid[a - u.len()]);
            assert(ud[mb] < n0);
        }
    }
}

/// Whether the column `c` still holds the rows of `before`: its first
/// stored cells are those of `before`, and as many rows are shown.
pub open spec fn keeps_rows_of(before: Column, c: Column) -> bool {
    &&& c.padding <= c.cells@.len()
    &&& c.cells@.len() >= before.cells@.len()
    &&& c.cells@.take(before.cells@.len() as int) == before.cells@
    &&& c.shown() == before.cells@.len()
}

/// A column without padding holds its own rows.
pub proof fn lemma_keeps_own_rows(c: Column)
    requires
        c.padding == 0,
    ensures
        keeps_rows_of(c, c),
{
    assert(c.cells@.take(c.cells@.len() as int) =~= c.cells@);
}

/// A step that only reorders the rows (a sort, a swap, a bubble) keeps the
/// rows of `before`.
pub proof fn lemma_reorder_keeps_rows(before: Column, o: Column, f: Column)
    requires
        keeps_rows_of(before, o),
        f.cells@ == o.cells@,
        f.padding == o.padding,
    ensures
        keeps_rows_of(before, f),
{
}

/// Showing the unique values keeps the rows of `before`: the cells it adds
/// come after them and count as padding.
pub proof fn lemma_unique_keeps_rows(before: Column, o: Column, f: Column, r: usize)
    requires
        keeps_rows_of(before, o),
        unique_post(o, f, r),
    ensures
        keeps_rows_of(before, f),
{
    let n = before.cells@.len() as int;
    let n0 = o.cells@.len() as int;
    if !(n0 >= 2 * o.padding && r == n0 - 2 * o.padding) {
        assert(f.cells@.take(n) =~= f.cells@.take(n0).take(n));
        assert(o.cells@.take(n) =~= f.cells@.take(n));
    }
}

/// Reverting a column that holds the rows of `before` (whatever sorts,
/// swaps, moves and unique views came between) gives `before` back.
pub proof fn lemma_revert_restores(before: Column, mid: Column, after: Column)
    requires
        before.padding == 0,
        before.indices@ == identity(before.cells@.len()),
        keeps_rows_of(before, mid),
        revert_post(mid, after),
    ensures
        after.cells@ == before.cells@,
        after.indices@ == before.indices@,
        after.padding == 0,
{
}

/// A step on a column that either only reorders its rows (a sort, a swap, a
/// bubble: the cells and padding stay) or shows its unique values.
pub open spec fn column_step(a: Column, b: Column) -> bool {
    ||| b.cells@ == a.cells@ && b.padding == a.padding
    ||| exists|r: usize| #[trigger] unique_post(a, b, r)
}

/// Law: whatever sequence of sorts, swaps, bubbles and unique views a column
/// without padding, shown in storage order, goes through (`trace`),
/// reverting it gives the column's cells back in storage order.
pub proof fn lemma_revert_after_steps(trace: Seq<Column>, after: Column)
    requires
        trace.len() > 0,
        trace[0].padding == 0,
        trace[0].indices@ == identity(trace[0].cells@.len()),
        forall|i: int| 0 <= i < trace.len() - 1 ==> column_step(trace[i], #[trigger] trace[i + 1]),
        revert_post(trace.last(), after),
    ensures
        after.cells@ == trace[0].cells@,
        after.indices@ == trace[0].indices@,
        after.padding == 0,
{
    lemma_steps_keep_rows(trace, trace.len() - 1);
    lemma_revert_restores(trace[0], trace.last(), after);
}

/// Every column of a trace of steps holds the rows of the first.
proof fn lemma_steps_keep_rows(trace: Seq<Column>, i: int)
    requires
        0 <= i < trace.len(),
        trace[0].padding == 0,
        forall|j: int| 0 <= j < trace.len() - 1 ==> column_step(trace[j], #[trigger] trace[j + 1]),
    ensures
        keeps_rows_of(trace[0], trace[i]),
    decreases i,
{
    if i == 0 {
        lemma_keeps_own_rows(trace[0]);
    } else {
        lemma_steps_keep_rows(trace, i - 1);
        assert(column_step(trace[i - 1], trace[i - 1 + 1]));
        if trace[i].cells@ == trace[i - 1].cells@ && trace[i].padding == trace[i - 1].padding {
            lemma_reorder_keeps_rows(trace[0], trace[i - 1], trace[i]);
        } else {
            let r = choose|r: usize| #[trigger] unique_post(trace[i - 1], trace[i], r);
            lemma_unique_keeps_rows(trace[0], trace[i - 1], trace[i], r);
        }
    }
}

/// Law: after `make_unique` on a column without padding, `revert` gives
/// back the stored cells unchanged, shown in storage order.
pub proof fn lemma_revert_undoes_unique(before: Column, mid: Column, r: usize, after: Column)
    requires
        before.wf(),
        before.padding == 0,
        unique_post(before, mid, r),
        revert_post(mid, after),
    ensures
        after.cells@ == before.cells@,
        after.indices@ == identity(before.cells@.len()),
        after.padding == 0,
{
    lemma_uniq_split_elems(before.cells@, before.indices@);
}

} // verus!

verus! {

#[derive(Debug)]
pub struct Cells {
    pub filename: String,
    pub delim: char,
    pub header: Vec<Cell>,
    pub col_ids: Vec<Cell>,
    pub columns: Vec<Column>,
    pub w_cell: (usize, usize),
    pub changed: bool,
    pub written: bool,
    pub slices: usize,
}

/// `g` with the focus flag of row `r` of column `c` set to `b`.
pub open spec fn set_focus(g: Seq<Seq<CellModel>>, c: int, r: int, b: bool) -> Seq<Seq<CellModel>> {
    g.update(c, g[c].update(r, CellModel { is_focused: b, ..g[c][r] }))
}

/// Whether `f` holds the columns of `o` with the cell of row `r` of column
/// `c` replaced by `cell`.
pub open spec fn cell_replaced(o: Seq<Column>, f: Seq<Column>, c: int, r: int, cell: Cell) -> bool {
    &&& f.len() == o.len()
    &&& forall|k: int| 0 <= k < o.len() && k != c ==> #[trigger] f[k] == o[k]
    &&& f[c].cells@ == o[c].cells@.update(o[c].indices@[r] as int, cell)
    &&& f[c].indices@ == o[c].indices@
    &&& f[c].padding == o[c].padding
    &&& f[c].start == o[c].start
    &&& f[c].width == o[c].width
}

/// What `set_column_width(w)` does to the sheet `o`: the focused column,
/// its id and its name get the width `w` (at least 3), and the sheet is
/// marked as changed.
pub open spec fn column_width_set(o: Cells, w: usize, f: Cells) -> bool {
    &&& ({
        let i = o.w_cell.0 as int;
        let width = if w > 3 {
            w
        } else {
            3
        };
        &&& f.columns@.len() == o.columns@.len()
        &&& forall|k: int|
            0 <= k < o.columns@.len() && k != i ==> #[trigger] f.columns@[k]
                == o.columns@[k]
        &&& f.columns@[i].width == width
        &&& cells_model(f.columns@[i].cells@) == cells_model(
            o.columns@[i].cells@,
        ).map_values(|c: CellModel| CellModel { width: width, ..c })
        &&& f.columns@[i].indices@ == o.columns@[i].indices@
        &&& f.columns@[i].padding == o.columns@[i].padding
        &&& f.columns@[i].start == o.columns@[i].start
        &&& f.col_ids@ == o.col_ids@.update(
            i,
            Cell { width: width, ..o.col_ids@[i] },
        )
        &&& f.header@ == o.header@.update(
            i,
            Cell { width: width, ..o.header@[i] },
        )
    })
    &&& f.changed
    &&& f.filename == o.filename
    &&& f.delim == o.delim
    &&& f.w_cell == o.w_cell
    &&& f.written == o.written
    &&& f.slices == o.slices
}

impl Cells {
    /// Whether every column's row indices are a permutation of its cells.
    pub open spec fn wf(&self) -> bool {
        forall|k: int| 0 <= k < self.columns@.len() ==> (#[trigger] self.columns@[k]).wf()
    }

    /// Whether row `r` of column `c` exists.
    pub open spec fn has_cell(&self, c: usize, r: usize) -> bool {
        &&& c < self.columns@.len()
        &&& r < self.columns@[c as int].indices@.len()
    }

    /// The rows of every column.
    pub open spec fn grid(&self) -> Seq<Seq<CellModel>> {
        self.columns@.map_values(|col: Column| col.rows())
    }

    /// Start, width and padding of every column.
    pub open spec fn col_meta(&self) -> Seq<(usize, usize, usize)> {
        self.columns@.map_values(|col: Column| (col.start, col.width, col.padding))
    }

    /// A sheet without columns yet, focused on its first cell.
    pub fn new(filename: String, delim: char, header: Vec<Cell>, col_ids: Vec<Cell>, num_cols: usize) -> (c: Self)
        ensures
            c.filename == filename,
            c.delim == delim,
            c.header == header,
            c.col_ids == col_ids,
            c.columns@.len() == 0,
            c.w_cell == (0usize, 0usize),
            !c.changed,
            !c.written,
            c.slices == 0,
    {
        let columns = Vec::<Column>::with_capacity(num_cols);
        Self {
            filename,
            delim,
            header,
            col_ids,
            columns,
            w_cell: (0usize, 0usize),
            changed: false,
            written: false,
            slices: 0usize,
        }
    }

    /// Copies of the cells of `row`.
    pub fn clone_cell_row(row: &Vec<Cell>) -> (new_row: Vec<Cell>)
        ensures
            cells_model(new_row@) == cells_model(row@),
    {
        let mut new_row = Vec::<Cell>::new();
        let mut i: usize = 0;
        while i < row.len()
            invariant
                i <= row@.len(),
                new_row@.len() == i,
                forall|k: int| 0 <= k < i ==> cell_model(#[trigger] new_row@[k]) == cell_model(row@[k]),
            decreases row@.len() - i,
        {
            new_row.push(row[i].clone());
            i += 1;
        }
        assert(cells_model(new_row@) =~= cells_model(row@));
        new_row
    }

    /// The focused cell, to change in place.
    pub fn w_cell(&mut self) -> (c: &mut Cell)
        requires
            old(self).wf(),
            old(self).has_cell(old(self).w_cell.0, old(self).w_cell.1),
        ensures
            *c == old(self).columns@[old(self).w_cell.0 as int].cells@[old(self).columns@[old(
                self,
            ).w_cell.0 as int].indices@[old(self).w_cell.1 as int] as int],
            cell_replaced(
                old(self).columns@,
                final(self).columns@,
                old(self).w_cell.0 as int,
                old(self).w_cell.1 as int,
                *final(c),
            ),
            final(self).filename == old(self).filename,
            final(self).delim == old(self).delim,
            final(self).header == old(self).header,
            final(self).col_ids == old(self).col_ids,
            final(self).w_cell == old(self).w_cell,
            final(self).changed == old(self).changed,
            final(self).written == old(self).written,
            final(self).slices == old(self).slices,
    {
        let c0 = self.w_cell.0;
        let r0 = self.w_cell.1;
        let col = &mut self.columns[c0];
        col.get_cell(r0)
    }

    /// Whether row `r` of column `c` exists.
    pub fn has_cell_exec(&self, c: usize, r: usize) -> (b: bool)
        ensures
            b == self.has_cell(c, r),
    {
        c < self.columns.len() && r < self.columns[c].indices.len()
    }

    /// Sets the width of the focused column, its id and its name to `w`, at
    /// least 3, and marks the sheet as changed.
    pub fn set_column_width(&mut self, w: usize)
        requires
            old(self).w_cell.0 < old(self).columns@.len(),
            old(self).w_cell.0 < old(self).col_ids@.len(),
            old(self).w_cell.0 < old(self).header@.len(),
        ensures
            column_width_set(*old(self), w, *final(self)),
            old(self).wf() ==> final(self).wf(),
    {
        let width = if w > 3 {
            w
        } else {
            3
        };
        let idx = self.w_cell.0;
        self.columns[idx].set_width(width);
        self.col_ids[idx].set_width(width);
        self.header[idx].set_width(width);
        self.changed = true;
    }

    /// Moves the focus to row `row` of column `col`.
    pub fn set_w_cell(&mut self, col: usize, row: usize)
        requires
            old(self).wf(),
            old(self).has_cell(old(self).w_cell.0, old(self).w_cell.1),
            old(self).has_cell(col, row),
        ensures
            final(self).wf(),
            final(self).w_cell == (col, row),
            final(self).grid() == set_focus(
                set_focus(
                    old(self).grid(),
                    old(self).w_cell.0 as int,
                    old(self).w_cell.1 as int,
                    false,
                ),
                col as int,
                row as int,
                true,
            ),
            final(self).col_meta() == old(self).col_meta(),
            final(self).columns@.len() == old(self).columns@.len(),
            forall|k: int|
                0 <= k < old(self).columns@.len() ==> (#[trigger] final(self).columns@[k]).indices@
                    == old(self).columns@[k].indices@ && final(self).columns@[k].cells@.len()
                    == old(self).columns@[k].cells@.len(),
            final(self).filename == old(self).filename,
            final(self).delim == old(self).delim,
            final(self).header == old(self).header,
            final(self).col_ids == old(self).col_ids,
            final(self).changed == old(self).changed,
            final(self).written == old(self).written,
            final(self).slices == old(self).slices,
    {
        self.set_focus_at(self.w_cell.0, self.w_cell.1, false);
        self.w_cell = (col, row);
        self.set_focus_at(col, row, true);
    }

    /// Sets the focus flag of row `r` of column `c`.
    pub fn set_focus_at(&mut self, c: usize, r: usize, b: bool)
        requires
            old(self).wf(),
            old(self).has_cell(c, r),
        ensures
            final(self).wf(),
            final(self).grid() == set_focus(old(self).grid(), c as int, r as int, b),
            final(self).col_meta() == old(self).col_meta(),
            final(self).columns@.len() == old(self).columns@.len(),
            forall|k: int|
                0 <= k < old(self).columns@.len() ==> (#[trigger] final(self).columns@[k]).indices@
                    == old(self).columns@[k].indices@ && final(self).columns@[k].cells@.len()
                    == old(self).columns@[k].cells@.len(),
            forall|k: int| 0 <= k < old(self).columns@.len() && k != c ==> #[trigger] final(self).columns@[k] == old(self).columns@[k],
            final(self).filename == old(self).filename,
            final(self).delim == old(self).delim,
            final(self).header == old(self).header,
            final(self).col_ids == old(self).col_ids,
            final(self).w_cell == old(self).w_cell,
            final(self).changed == old(self).changed,
            final(self).written == old(self).written,
            final(self).slices == old(self).slices,
    {
        let ghost o = self.columns@;
        let cell = self.columns[c].get_cell(r);
        cell.set_focused(b);
        proof {
            let f = self.columns@;
            let ri = o[c as int].indices@[r as int];
            assert(f[c as int].rows() =~= o[c as int].rows().update(
                r as int,
                CellModel { is_focused: b, ..o[c as int].rows()[r as int] },
            )) by {
                assert forall|j: int| 0 <= j < f[c as int].rows().len() implies f[c as int].rows()[j]
                    == o[c as int].rows().update(
                    r as int,
                    CellModel { is_focused: b, ..o[c as int].rows()[r as int] },
                )[j] by {
                    if j != r {
                        assert(o[c as int].indices@[j] != ri);
                    }
                }
            }
            assert(self.grid() =~= set_focus(
                o.map_values(|col: Column| col.rows()),
                c as int,
                r as int,
                b,
            ));
            assert(self.col_meta() =~= o.map_values(|col: Column| (col.start, col.width, col.padding)));
        }
    }

    pub fn push_column(&mut self, col: Column)
        ensures
            final(self).columns@ == old(self).columns@.push(col),
            *final(self) == (Cells { columns: final(self).columns, ..*old(self) }),
    {
        self.columns.push(col);
    }

    pub fn insert_column(&mut self, idx: usize, col: Column)
        requires
            idx <= old(self).columns@.len(),
        ensures
            final(self).columns@ == old(self).columns@.insert(idx as int, col),
            *final(self) == (Cells { columns: final(self).columns, ..*old(self) }),
    {
        self.columns.insert(idx, col);
    }

    pub fn insert_col_name(&mut self, idx: usize, col_name: Cell)
        requires
            idx <= old(self).header@.len(),
        ensures
            final(self).header@ == old(self).header@.insert(idx as int, col_name),
            *final(self) == (Cells { header: final(self).header, ..*old(self) }),
    {
        self.header.insert(idx, col_name);
    }

    /// Appends `cell` as the last row of column `col`.
    pub fn push_to_col(&mut self, col: usize, cell: Cell)
        requires
            col < old(self).columns@.len(),
            old(self).columns@[col as int].wf(),
        ensures
            final(self).columns@.len() == old(self).columns@.len(),
            forall|k: int|
                0 <= k < old(self).columns@.len() && k != col ==> #[trigger] final(self).columns@[k]
                    == old(self).columns@[k],
            final(self).columns@[col as int].wf(),
            final(self).columns@[col as int].cells@ == old(self).columns@[col as int].cells@.push(cell),
            final(self).columns@[col as int].rows() == old(self).columns@[col as int].rows().push(
                cell_model(cell),
            ),
            final(self).columns@[col as int].padding == old(self).columns@[col as int].padding,
            final(self).columns@[col as int].start == old(self).columns@[col as int].start,
            final(self).columns@[col as int].width == old(self).columns@[col as int].width,
            *final(self) == (Cells { columns: final(self).columns, ..*old(self) }),
    {
        self.columns[col].push_cell(cell);
    }

    /// Column `idx`, to change in place.
    pub fn get_column(&mut self, idx: usize) -> (c: &mut Column)
        requires
            idx < old(self).columns@.len(),
        ensures
            *c == old(self).columns@[idx as int],
            final(self).columns@ == old(self).columns@.update(idx as int, *final(c)),
            *final(self) == (Cells { columns: final(self).columns, ..*old(self) }),
    {
        &mut self.columns[idx]
    }

    pub fn num_cols(&self) -> (n: usize)
        ensures
            n == self.columns@.len(),
    {
        self.columns.len()
    }

    /// The number of shown rows of the first column.
    pub fn num_rows(&self) -> (n: usize)
        requires
            self.columns@.len() > 0,
            self.columns@[0].padding <= self.columns@[0].cells@.len(),
        ensures
            n == self.columns@[0].shown(),
    {
        self.columns[0].len()
    }

    /// Appends the next column id.
    pub fn increment_col_ids(&mut self)
        ensures
            final(self).col_ids@.len() == old(self).col_ids@.len() + 1,
            final(self).col_ids@.take(old(self).col_ids@.len() as int) == old(self).col_ids@,
            cell_model(final(self).col_ids@.last()) == new_cell_model(
                crate::csv_io::base26((old(self).col_ids@.len() as u32) as nat),
            ),
            *final(self) == (Cells { col_ids: final(self).col_ids, ..*old(self) }),
    {
        let len = self.col_ids.len() as u32;
        let id = crate::csv_io::int_to_base_26(len);
        self.col_ids.push(Cell::new(id.as_str()));
        assert(self.col_ids@.take(old(self).col_ids@.len() as int) =~= old(self).col_ids@);
    }

    /// The column that `id` names: a name in quotes (`'name'` or `"name"`,
    /// found among the column names) or a column id such as `C`.
    pub fn get_col_idx<'a>(&self, id: &'a str) -> (r: Result<usize, crate::cmd_err::CmdErr<'a>>)
        requires
            col_ref_ok(id@),
        ensures
            is_quote(id@[0]) ==> (r matches Ok(i) ==> i < self.header@.len()
                && self.header@[i as int].content@ == quoted_name(id@) && forall|j: int|
                0 <= j < i ==> #[trigger] self.header@[j].content@ != quoted_name(id@)),
            is_quote(id@[0]) ==> (r matches Err(e) ==> e == crate::cmd_err::CmdErr::NoName(id)
                && forall|j: int|
                0 <= j < self.header@.len() ==> #[trigger] self.header@[j].content@
                    != quoted_name(id@)),
            !is_quote(id@[0]) ==> (r matches Ok(i) ==> i < self.col_ids@.len()
                && self.col_ids@[i as int].content@ == id@ && forall|j: int|
                0 <= j < i ==> #[trigger] self.col_ids@[j].content@ != id@),
            !is_quote(id@[0]) ==> (r matches Err(e) ==> e == crate::cmd_err::CmdErr::NoId(id)
                && forall|j: int|
                0 <= j < self.col_ids@.len() ==> #[trigger] self.col_ids@[j].content@ != id@),
    {
        let chars = crate::text::to_chars(id);
        let first = chars[0];
        if first == '\'' || first == '"' {
            let n = chars.len() - 2;
            let mut name_chars = Vec::<char>::new();
            let mut k: usize = 0;
            while k < n
                invariant
                    k <= n,
                    n == chars@.len() - 2,
                    name_chars@ == chars@.subrange(1, k + 1),
                decreases n - k,
            {
                name_chars.push(chars[k + 1]);
                k += 1;
                assert(chars@.subrange(1, k + 1) == chars@.subrange(1, k as int).push(chars@[k as int]));
            }
            assert(name_chars@ == quoted_name(id@));
            let name = crate::text::from_chars(&name_chars);
            let mut i: usize = 0;
            while i < self.header.len()
                invariant
                    i <= self.header@.len(),
                    name@ == quoted_name(id@),
                    is_quote(id@[0]),
                    forall|j: int| 0 <= j < i ==> #[trigger] self.header@[j].content@ != name@,
                decreases self.header@.len() - i,
            {
                if self.header[i].content == name {
                    return Ok(i);
                }
                i += 1;
            }
            return Err(crate::cmd_err::CmdErr::NoName(id));
        } else {
            let mut i: usize = 0;
            while i < self.col_ids.len()
                invariant
                    i <= self.col_ids@.len(),
                    !is_quote(id@[0]),
                    forall|j: int| 0 <= j < i ==> #[trigger] self.col_ids@[j].content@ != id@,
                decreases self.col_ids@.len() - i,
            {
                if crate::text::same_text(self.col_ids[i].content.as_str(), id) {
                    return Ok(i);
                }
                i += 1;
            }
            return Err(crate::cmd_err::CmdErr::NoId(id));
        }
    }
}

} // verus!

verus! {

/// Whether `c` opens a quoted name.
pub open spec fn is_quote(c: char) -> bool {
    c == '\'' || c == '"'
}

/// Whether `id` can be looked up: it is not empty, and if it opens a quote
/// it has at least two characters.
pub open spec fn col_ref_ok(id: Seq<char>) -> bool {
    &&& id.len() > 0
    &&& is_quote(id[0]) ==> id.len() >= 2
}

/// The name inside a quoted column reference: the characters between its
/// first and its last.
pub open spec fn quoted_name(id: Seq<char>) -> Seq<char> {
    id.subrange(1, id.len() - 1)
}

} // verus!

verus! {

/// An open sheet with the place the window stood on it.
pub struct Context {
    pub id: usize,
    pub cells: Cells,
    pub w_pointer: usize,
    pub h_pointer: usize,
    pub w_offset: usize,
    pub h_offset: usize,
}

impl Context {
    pub fn new(id: usize, cells: Cells) -> (c: Self)
        ensures
            c.id == id,
            c.cells == cells,
            c.w_pointer == 0 && c.h_pointer == 0 && c.w_offset == 0 && c.h_offset == 0,
    {
        Self { id, cells, w_pointer: 0usize, h_pointer: 0usize, w_offset: 0usize, h_offset: 0usize }
    }

    /// Records where the window stands.
    pub fn save(&mut self, wi: &crate::terminal::WinInfo)
        ensures
            *final(self) == (Context {
                w_pointer: wi.w_pointer,
                h_pointer: wi.h_pointer,
                w_offset: wi.w_offset,
                h_offset: wi.h_offset,
                ..*old(self)
            }),
    {
        self.w_pointer = wi.w_pointer;
        self.h_pointer = wi.h_pointer;
        self.w_offset = wi.w_offset;
        self.h_offset = wi.h_offset;
    }

    pub fn cells(&mut self) -> (c: &mut Cells)
        ensures
            *c == old(self).cells,
            *final(self) == (Context { cells: *final(c), ..*old(self) }),
    {
        &mut self.cells
    }
}

/// The open sheets and which of them is shown.
pub struct Csvs {
    pub contexts: Vec<Context>,
    pub handle: usize,
}

impl Csvs {
    pub fn new(contexts: Vec<Context>) -> (c: Self)
        ensures
            c.contexts == contexts,
            c.handle == 0,
    {
        Self { contexts, handle: 0usize }
    }

    pub fn push_context(&mut self, con: Context)
        ensures
            final(self).contexts@ == old(self).contexts@.push(con),
            final(self).handle == old(self).handle,
    {
        self.contexts.push(con);
    }

    /// Records where the window stands on the shown sheet.
    pub fn save_context(&mut self, wi: &crate::terminal::WinInfo)
        requires
            old(self).handle < old(self).contexts@.len(),
        ensures
            final(self).contexts@ == old(self).contexts@.update(
                old(self).handle as int,
                Context {
                    w_pointer: wi.w_pointer,
                    h_pointer: wi.h_pointer,
                    w_offset: wi.w_offset,
                    h_offset: wi.h_offset,
                    ..old(self).contexts@[old(self).handle as int]
                },
            ),
            final(self).handle == old(self).handle,
    {
        let h = self.handle;
        self.contexts[h].save(wi)
    }

    /// The shown sheet, to change in place.
    pub fn get_context(&mut self) -> (c: &mut Context)
        requires
            old(self).handle < old(self).contexts@.len(),
        ensures
            *c == old(self).contexts@[old(self).handle as int],
            final(self).contexts@ == old(self).contexts@.update(old(self).handle as int, *final(c)),
            final(self).handle == old(self).handle,
    {
        let h = self.handle;
        &mut self.contexts[h]
    }

    /// Removes sheet `id`; the ids above it and the shown sheet's index move
    /// down by one.
    pub fn remove_context(&mut self, id: usize) -> (con: Context)
        requires
            id < old(self).contexts@.len(),
        ensures
            con == (Context {
                id: shift_down(old(self).contexts@[id as int].id, id),
                ..old(self).contexts@[id as int]
            }),
            final(self).contexts@.len() == old(self).contexts@.len() - 1,
            forall|k: int|
                0 <= k < final(self).contexts@.len() ==> #[trigger] final(self).contexts@[k] == (
                Context {
                    id: shift_down(old(self).contexts@[if k < id { k } else { k + 1 }].id, id),
                    ..old(self).contexts@[if k < id { k } else { k + 1 }]
                }),
            final(self).handle == shift_down(old(self).handle, id),
    {
        let mut i: usize = 0;
        while i < self.contexts.len()
            invariant
                i <= self.contexts@.len(),
                self.contexts@.len() == old(self).contexts@.len(),
                self.handle == old(self).handle,
                forall|k: int|
                    0 <= k < i ==> #[trigger] self.contexts@[k] == (Context {
                        id: shift_down(old(self).contexts@[k].id, id),
                        ..old(self).contexts@[k]
                    }),
                forall|k: int|
                    i <= k < self.contexts@.len() ==> #[trigger] self.contexts@[k] == old(
                        self,
                    ).contexts@[k],
            decreases self.contexts@.len() - i,
        {
            let c = &mut self.contexts[i];
            if c.id > id {
                c.id = c.id - 1;
            }
            i += 1;
        }
        if self.handle > id {
            self.handle = self.handle - 1;
        }
        self.contexts.remove(id)
    }

    /// The shown sheet, to change in place.
    pub fn get_cells(&mut self) -> (c: &mut Cells)
        requires
            old(self).handle < old(self).contexts@.len(),
        ensures
            *c == old(self).contexts@[old(self).handle as int].cells,
            final(self).contexts@ == old(self).contexts@.update(
                old(self).handle as int,
                Context { cells: *final(c), ..old(self).contexts@[old(self).handle as int] },
            ),
            final(self).handle == old(self).handle,
    {
        let h = self.handle;
        &mut self.contexts[h].cells
    }

    pub fn num_contexts(&self) -> (n: usize)
        ensures
            n == self.contexts@.len(),
    {
        self.contexts.len()
    }

    pub fn set_handle(&mut self, id: usize)
        ensures
            final(self).handle == id,
            final(self).contexts == old(self).contexts,
    {
        self.handle = id;
    }
}

} // verus!

verus! {

/// The cells `v` with every empty text replaced by `val`.
pub open spec fn filled(v: Seq<Cell>, val: Seq<char>) -> Seq<CellModel> {
    v.map_values(
        |c: Cell|
            if c.content@.len() == 0 {
                CellModel { content: val, ..cell_model(c) }
            } else {
                cell_model(c)
            },
    )
}

/// The cells `v` with every occurrence of `t` replaced by `n` in the texts
/// that contain `t`.
pub open spec fn replaced(v: Seq<Cell>, t: Seq<char>, n: Seq<char>) -> Seq<CellModel> {
    v.map_values(
        |c: Cell|
            if crate::text::contains_text(c.content@, t) {
                CellModel { content: crate::text::replace_text(c.content@, t, n), ..cell_model(c) }
            } else {
                cell_model(c)
            },
    )
}

impl Column {
    /// Gives every stored cell with an empty text the text `val`.
    pub fn fill_empty(&mut self, val: &str)
        requires
            old(self).wf(),
        ensures
            final(self).wf(),
            cells_model(final(self).cells@) == filled(old(self).cells@, val@),
            final(self).indices@ == old(self).indices@,
            final(self).padding == old(self).padding,
            final(self).start == old(self).start,
            final(self).width == old(self).width,
    {
        let n = self.cells.len();
        let mut k: usize = 0;
        while k < n
            invariant
                k <= n == self.cells@.len() == old(self).cells@.len(),
                self.indices == old(self).indices,
                self.padding == old(self).padding,
                self.start == old(self).start,
                self.width == old(self).width,
                forall|j: int| 0 <= j < k ==> cell_model(#[trigger] self.cells@[j]) == filled(old(self).cells@, val@)[j],
                forall|j: int| k <= j < n ==> #[trigger] self.cells@[j] == old(self).cells@[j],
            decreases n - k,
        {
            if self.cells[k].content.as_str().unicode_len() == 0 {
                let mut c = self.cells[k].clone();
                c.content = crate::text::text_of(val);
                self.cells.set(k, c);
            }
            k += 1;
        }
        proof {
            assert(cells_model(self.cells@) =~= filled(old(self).cells@, val@));
        }
    }

    /// Replaces every occurrence of `t` by `n` in the stored cells whose text
    /// contains `t`.
    pub fn replace_all(&mut self, t: &str, n: &str)
        requires
            old(self).wf(),
        ensures
            final(self).wf(),
            cells_model(final(self).cells@) == replaced(old(self).cells@, t@, n@),
            final(self).indices@ == old(self).indices@,
            final(self).padding == old(self).padding,
            final(self).start == old(self).start,
            final(self).width == old(self).width,
    {
        let tv = to_chars(t);
        let nv = to_chars(n);
        let len = self.cells.len();
        let mut k: usize = 0;
        while k < len
            invariant
                k <= len == self.cells@.len() == old(self).cells@.len(),
                tv@ == t@,
                nv@ == n@,
                self.indices == old(self).indices,
                self.padding == old(self).padding,
                self.start == old(self).start,
                self.width == old(self).width,
                forall|j: int| 0 <= j < k ==> cell_model(#[trigger] self.cells@[j]) == replaced(old(self).cells@, t@, n@)[j],
                forall|j: int| k <= j < len ==> #[trigger] self.cells@[j] == old(self).cells@[j],
            decreases len - k,
        {
            let cv = to_chars(self.cells[k].content.as_str());
            if crate::text::contains_chars(&cv, &tv) {
                let out = crate::text::replace_chars(&cv, &tv, &nv);
                let mut c = self.cells[k].clone();
                c.content = crate::text::from_chars(&out);
                self.cells.set(k, c);
            }
            k += 1;
        }
        proof {
            assert(cells_model(self.cells@) =~= replaced(old(self).cells@, t@, n@));
        }
    }
}

impl Cells {
    /// The name of column `i`, to change it.
    pub fn header_mut(&mut self, i: usize) -> (c: &mut Cell)
        requires
            i < old(self).header@.len(),
        ensures
            *c == old(self).header@[i as int],
            final(self).header@ == old(self).header@.update(i as int, *final(c)),
            *final(self) == (Cells { header: final(self).header, ..*old(self) }),
    {
        &mut self.header[i]
    }

    /// The id cell of column `i`, to change its width.
    pub fn col_id_mut(&mut self, i: usize) -> (c: &mut Cell)
        requires
            i < old(self).col_ids@.len(),
        ensures
            *c == old(self).col_ids@[i as int],
            final(self).col_ids@ == old(self).col_ids@.update(i as int, *final(c)),
            *final(self) == (Cells { col_ids: final(self).col_ids, ..*old(self) }),
    {
        &mut self.col_ids[i]
    }
}

} // verus!

verus! {

impl Column {
    /// Sets the focus flag of stored cell `k`.
    pub fn set_stored_focus(&mut self, k: usize, b: bool)
        requires
            k < old(self).cells@.len(),
        ensures
            final(self).cells@ == old(self).cells@.update(k as int, Cell { is_focused: b, ..old(self).cells@[k as int] }),
            *final(self) == (Column { cells: final(self).cells, ..*old(self) }),
    {
        let c = &mut self.cells[k];
        c.is_focused = b;
    }
}

impl Cells {
    /// Gives every column the row order of column `src` when all columns
    /// store as many cells as it; else changes nothing and says so.
    pub fn copy_order(&mut self, src: usize) -> (ok: bool)
        requires
            old(self).wf(),
            src < old(self).columns@.len(),
        ensures
            final(self).wf(),
            ok == forall|k: int|
                0 <= k < old(self).columns@.len() ==> (#[trigger] old(self).columns@[k]).cells@.len()
                    == old(self).columns@[src as int].cells@.len(),
            ok ==> final(self).columns@.len() == old(self).columns@.len() && forall|k: int|
                0 <= k < old(self).columns@.len() ==> #[trigger] final(self).columns@[k] == (Column {
                    indices: final(self).columns@[k].indices,
                    ..old(self).columns@[k]
                }) && final(self).columns@[k].indices@ == old(self).columns@[src as int].indices@,
            ok ==> *final(self) == (Cells { columns: final(self).columns, ..*old(self) }),
            !ok ==> *final(self) == *old(self),
    {
        let n = self.columns[src].cells.len();
        let mut k: usize = 0;
        while k < self.columns.len()
            invariant
                *self == *old(self),
                self.wf(),
                n == self.columns@[src as int].cells@.len(),
                src < self.columns@.len(),
                k <= self.columns@.len(),
                forall|j: int| 0 <= j < k ==> (#[trigger] self.columns@[j]).cells@.len() == n,
            decreases self.columns@.len() - k,
        {
            if self.columns[k].cells.len() != n {
                return false;
            }
            k += 1;
        }
        let order = self.columns[src].indices.clone();
        let mut k: usize = 0;
        while k < self.columns.len()
            invariant
                self.columns@.len() == old(self).columns@.len(),
                src < self.columns@.len(),
                order@ == old(self).columns@[src as int].indices@,
                k <= self.columns@.len(),
                forall|j: int| 0 <= j < old(self).columns@.len() ==> (#[trigger] old(self).columns@[j]).cells@.len() == n,
                n == old(self).columns@[src as int].cells@.len(),
                old(self).wf(),
                forall|j: int| 0 <= j < k ==> #[trigger] self.columns@[j] == (Column {
                    indices: self.columns@[j].indices,
                    ..old(self).columns@[j]
                }) && self.columns@[j].indices@ == order@,
                forall|j: int| k <= j < self.columns@.len() ==> #[trigger] self.columns@[j] == old(self).columns@[j],
                *self == (Cells { columns: self.columns, ..*old(self) }),
            decreases self.columns@.len() - k,
        {
            let o = order.clone();
            self.get_column(k).indices = o;
            k += 1;
        }
        proof {
            assert forall|j: int| 0 <= j < self.columns@.len() implies (#[trigger] self.columns@[j]).wf() by {
                assert(old(self).columns@[src as int].wf());
                assert(old(self).columns@[j].wf());
            }
        }
        true
    }
}

} // verus!

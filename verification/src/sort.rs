//! Sorting the rows of a column: a stable sort of its row order by text
//! (ascending with empty texts last, or descending) or by numeric keys.
use vstd::prelude::*;

use crate::cells::Column;

verus! {

/// The orders a column can be sorted in.
#[derive(Debug, PartialEq, Eq, Structural)]
pub enum Sort {
    AscAlph,
    DescAlph,
    AscNum,
    DescNum,
}

/// Whether `a` comes before `b` character by character, a proper prefix
/// first.
pub open spec fn lex_lt(a: Seq<char>, b: Seq<char>) -> bool
    decreases a.len(),
{
    if a.len() == 0 {
        b.len() > 0
    } else if b.len() == 0 {
        false
    } else if a[0] < b[0] {
        true
    } else if a[0] == b[0] {
        lex_lt(a.drop_first(), b.drop_first())
    } else {
        false
    }
}

proof fn lemma_lex_irrefl(a: Seq<char>)
    ensures
        !lex_lt(a, a),
    decreases a.len(),
{
    if a.len() > 0 {
        lemma_lex_irrefl(a.drop_first());
    }
}

proof fn lemma_lex_trans(a: Seq<char>, b: Seq<char>, c: Seq<char>)
    requires
        lex_lt(a, b),
        lex_lt(b, c),
    ensures
        lex_lt(a, c),
    decreases a.len(),
{
    if a.len() > 0 && b.len() > 0 && c.len() > 0 && a[0] == b[0] && b[0] == c[0] {
        lemma_lex_trans(a.drop_first(), b.drop_first(), c.drop_first());
    }
}

proof fn lemma_lex_total(a: Seq<char>, b: Seq<char>)
    ensures
        a == b || lex_lt(a, b) || lex_lt(b, a),
    decreases a.len(),
{
    if a.len() > 0 && b.len() > 0 && a[0] == b[0] {
        lemma_lex_total(a.drop_first(), b.drop_first());
        if a.drop_first() == b.drop_first() {
            assert(a =~= seq![a[0]] + a.drop_first());
            assert(b =~= seq![b[0]] + b.drop_first());
        }
    } else if a.len() == 0 && b.len() == 0 {
        assert(a =~= b);
    }
}

proof fn lemma_lex_asym(a: Seq<char>, b: Seq<char>)
    requires
        lex_lt(a, b),
    ensures
        !lex_lt(b, a),
{
    if lex_lt(b, a) {
        lemma_lex_trans(a, b, a);
        lemma_lex_irrefl(a);
    }
}

/// Whether the row holding text `x` (key `kx`) goes strictly before the row
/// holding `y` (key `ky`) in the order `dir`: ascending texts put empty
/// texts last; descending texts put them last as the smallest; numeric
/// orders compare the keys.
pub open spec fn precedes(dir: Sort, x: Seq<char>, kx: u32, y: Seq<char>, ky: u32) -> bool {
    match dir {
        Sort::AscAlph => x.len() > 0 && (y.len() == 0 || lex_lt(x, y)),
        Sort::DescAlph => lex_lt(y, x),
        Sort::AscNum => kx < ky,
        Sort::DescNum => ky < kx,
    }
}

proof fn lemma_precedes_asym(dir: Sort, x: Seq<char>, kx: u32, y: Seq<char>, ky: u32)
    requires
        precedes(dir, x, kx, y, ky),
    ensures
        !precedes(dir, y, ky, x, kx),
{
    match dir {
        Sort::AscAlph => {
            if y.len() > 0 {
                lemma_lex_asym(x, y);
            }
        },
        Sort::DescAlph => {
            lemma_lex_asym(y, x);
        },
        _ => {},
    }
}

proof fn lemma_precedes_neg_trans(
    dir: Sort,
    x: Seq<char>,
    kx: u32,
    y: Seq<char>,
    ky: u32,
    z: Seq<char>,
    kz: u32,
)
    requires
        precedes(dir, x, kx, z, kz),
    ensures
        precedes(dir, x, kx, y, ky) || precedes(dir, y, ky, z, kz),
{
    match dir {
        Sort::AscAlph => {
            if y.len() > 0 && z.len() > 0 {
                lemma_lex_total(x, y);
                if lex_lt(y, x) {
                    lemma_lex_trans(y, x, z);
                }
            }
        },
        Sort::DescAlph => {
            lemma_lex_total(x, y);
            if lex_lt(x, y) {
                lemma_lex_trans(z, x, y);
            }
        },
        _ => {},
    }
}

/// The order value of storage index `x`: the text of row `x` (the row the
/// index stands at before the sort) and key `x`, or 0 past the keys.
pub open spec fn text_of_row(c: Column, x: usize) -> Seq<char> {
    c.rows()[x as int].content
}

pub open spec fn key_of(keys: Seq<u32>, x: usize) -> u32 {
    if x < keys.len() {
        keys[x as int]
    } else {
        0
    }
}

/// Whether storage index `x` goes strictly before `y`.
pub open spec fn idx_precedes(c: Column, keys: Seq<u32>, dir: Sort, x: usize, y: usize) -> bool {
    precedes(dir, text_of_row(c, x), key_of(keys, x), text_of_row(c, y), key_of(keys, y))
}

/// Whether `r` is `s` stably sorted: `r[a] == s[p[a]]` for a permutation `p`
/// of the positions, no element precedes one before it, and elements of
/// which neither precedes the other keep their order.
pub open spec fn stably_sorted(c: Column, keys: Seq<u32>, dir: Sort, s: Seq<usize>, r: Seq<usize>, p: Seq<int>) -> bool {
    &&& r.len() == s.len()
    &&& p.len() == s.len()
    &&& forall|a: int| 0 <= a < p.len() ==> 0 <= #[trigger] p[a] < s.len() && r[a] == s[p[a]]
    &&& forall|a: int, b: int| 0 <= a < b < p.len() ==> p[a] != p[b]
    &&& forall|a: int, b: int| 0 <= a < b < r.len() ==> !idx_precedes(c, keys, dir, #[trigger] r[b], #[trigger] r[a])
    &&& forall|a: int, b: int|
        0 <= a < b < r.len() && !idx_precedes(c, keys, dir, #[trigger] r[a], #[trigger] r[b]) ==> p[a] < p[b]
}

/// The row order of column `c` after sorting the first `vis` rows stably in
/// the order `dir`.
pub open spec fn sorted_rows(c: Column, keys: Seq<u32>, dir: Sort, vis: int, r: Seq<usize>) -> bool {
    &&& r.len() == c.indices@.len()
    &&& r.skip(vis) == c.indices@.skip(vis)
    &&& exists|p: Seq<int>| #[trigger] stably_sorted(c, keys, dir, c.indices@.take(vis), r.take(vis), p)
}

/// Whether storage index `x` goes strictly before `y` (the exec check).
fn goes_before(c: &Column, keys: &Vec<u32>, dir: &Sort, x: usize, y: usize) -> (b: bool)
    requires
        c.wf(),
        x < c.indices@.len(),
        y < c.indices@.len(),
    ensures
        b == idx_precedes(*c, keys@, *dir, x, y),
{
    match dir {
        Sort::AscAlph | Sort::DescAlph => {
            let tx = crate::text::to_chars(c.view_cell(x));
            let ty = crate::text::to_chars(c.view_cell(y));
            match dir {
                Sort::AscAlph => tx.len() > 0 && (ty.len() == 0 || lex_less(&tx, &ty)),
                _ => lex_less(&ty, &tx),
            }
        },
        _ => {
            let kx = if x < keys.len() {
                keys[x]
            } else {
                0
            };
            let ky = if y < keys.len() {
                keys[y]
            } else {
                0
            };
            match dir {
                Sort::AscNum => kx < ky,
                _ => ky < kx,
            }
        },
    }
}

/// `lex_lt(a, b)`.
fn lex_less(a: &Vec<char>, b: &Vec<char>) -> (r: bool)
    ensures
        r == lex_lt(a@, b@),
{
    let mut i: usize = 0;
    assert(a@.skip(0) == a@ && b@.skip(0) == b@);
    while i < a.len() && i < b.len()
        invariant
            i <= a@.len(),
            i <= b@.len(),
            lex_lt(a@, b@) == lex_lt(a@.skip(i as int), b@.skip(i as int)),
        decreases a@.len() - i,
    {
        proof {
            assert(a@.skip(i as int).drop_first() =~= a@.skip(i + 1));
            assert(b@.skip(i as int).drop_first() =~= b@.skip(i + 1));
        }
        if a[i] < b[i] {
            return true;
        }
        if a[i] != b[i] {
            return false;
        }
        i += 1;
    }
    i == a.len() && i < b.len()
}

proof fn lemma_idx_asym(c: Column, keys: Seq<u32>, dir: Sort, x: usize, y: usize)
    requires
        idx_precedes(c, keys, dir, x, y),
    ensures
        !idx_precedes(c, keys, dir, y, x),
{
    lemma_precedes_asym(dir, text_of_row(c, x), key_of(keys, x), text_of_row(c, y), key_of(keys, y));
}

proof fn lemma_idx_neg_trans(c: Column, keys: Seq<u32>, dir: Sort, x: usize, y: usize, z: usize)
    requires
        idx_precedes(c, keys, dir, x, z),
    ensures
        idx_precedes(c, keys, dir, x, y) || idx_precedes(c, keys, dir, y, z),
{
    lemma_precedes_neg_trans(
        dir,
        text_of_row(c, x),
        key_of(keys, x),
        text_of_row(c, y),
        key_of(keys, y),
        text_of_row(c, z),
        key_of(keys, z),
    );
}

/// What holds of the sorted prefix `r` of `s` (with positions `p`) after
/// `k` elements.
pub open spec fn sort_inv(c: Column, keys: Seq<u32>, dir: Sort, s: Seq<usize>, r: Seq<usize>, p: Seq<int>, k: int) -> bool {
    &&& r.len() == k
    &&& p.len() == k
    &&& forall|a: int| 0 <= a < k ==> 0 <= #[trigger] p[a] < k && r[a] == s[p[a]]
    &&& forall|a: int, b: int| 0 <= a < b < k ==> p[a] != p[b]
    &&& forall|a: int, b: int| 0 <= a < b < k ==> !idx_precedes(c, keys, dir, #[trigger] r[b], #[trigger] r[a])
    &&& forall|a: int, b: int|
        0 <= a < b < k && !idx_precedes(c, keys, dir, #[trigger] r[a], #[trigger] r[b]) ==> p[a] < p[b]
}

proof fn lemma_insert_step(
    c: Column,
    keys: Seq<u32>,
    dir: Sort,
    s: Seq<usize>,
    r: Seq<usize>,
    p: Seq<int>,
    k: int,
    j: int,
    x: usize,
)
    requires
        0 <= j <= k < s.len(),
        x == s[k],
        sort_inv(c, keys, dir, s, r, p, k),
        forall|i: int| j <= i < k ==> idx_precedes(c, keys, dir, x, #[trigger] r[i]),
        j > 0 ==> !idx_precedes(c, keys, dir, x, r[j - 1]),
    ensures
        sort_inv(c, keys, dir, s, r.insert(j, x), p.insert(j, k), k + 1),
{
    let r2 = r.insert(j, x);
    let p2 = p.insert(j, k);
    assert forall|a: int| 0 <= a < k + 1 implies 0 <= #[trigger] p2[a] < k + 1 && r2[a] == s[p2[a]] by {
        if a < j {
            assert(p2[a] == p[a] && r2[a] == r[a]);
        } else if a > j {
            assert(p2[a] == p[a - 1] && r2[a] == r[a - 1]);
        }
    }
    assert forall|a: int, b: int| 0 <= a < b < k + 1 implies p2[a] != p2[b] by {
        if a < j && b > j {
            assert(p2[b] == p[b - 1]);
        } else if a > j {
            assert(p2[a] == p[a - 1] && p2[b] == p[b - 1]);
        } else if b == j {
            assert(p2[a] == p[a]);
        } else if a == j {
            assert(p2[b] == p[b - 1]);
        }
    }
    assert forall|a: int, b: int| 0 <= a < b < k + 1 implies !idx_precedes(c, keys, dir, #[trigger] r2[b], #[trigger] r2[a]) by {
        if b < j {
            assert(r2[a] == r[a] && r2[b] == r[b]);
        } else if b == j {
            assert(r2[a] == r[a] && r2[b] == x);
            if idx_precedes(c, keys, dir, x, r[a]) {
                if a < j - 1 {
                    assert(!idx_precedes(c, keys, dir, r[j - 1], r[a]));
                    lemma_idx_neg_trans(c, keys, dir, x, r[j - 1], r[a]);
                }
            }
        } else if a < j {
            assert(r2[a] == r[a] && r2[b] == r[b - 1]);
        } else if a == j {
            assert(r2[a] == x && r2[b] == r[b - 1]);
            lemma_idx_asym(c, keys, dir, x, r[b - 1]);
        } else {
            assert(r2[a] == r[a - 1] && r2[b] == r[b - 1]);
        }
    }
    assert forall|a: int, b: int|
        0 <= a < b < k + 1 && !idx_precedes(c, keys, dir, #[trigger] r2[a], #[trigger] r2[b]) implies p2[a] < p2[b] by {
        if b < j {
            assert(r2[a] == r[a] && r2[b] == r[b] && p2[a] == p[a] && p2[b] == p[b]);
        } else if b == j {
            assert(p2[a] == p[a] && p2[b] == k);
        } else if a < j {
            assert(r2[a] == r[a] && r2[b] == r[b - 1] && p2[a] == p[a] && p2[b] == p[b - 1]);
        } else if a == j {
            assert(r2[a] == x && r2[b] == r[b - 1]);
        } else {
            assert(r2[a] == r[a - 1] && r2[b] == r[b - 1] && p2[a] == p[a - 1] && p2[b] == p[b - 1]);
        }
    }
}

impl Column {
    /// Sorts the first `vis` rows of the column stably in the order `dir`
    /// (by the rows' texts, or by `keys` given per stored cell); the rows
    /// after them keep their places.
    pub fn sort_rows(&mut self, dir: Sort, keys: &Vec<u32>, vis: usize)
        requires
            old(self).wf(),
            vis <= old(self).indices@.len(),
        ensures
            final(self).wf(),
            sorted_rows(*old(self), keys@, dir, vis as int, final(self).indices@),
            *final(self) == (Column { indices: final(self).indices, ..*old(self) }),
    {
        let ghost c0 = *self;
        let ghost s = self.indices@.take(vis as int);
        let mut r: Vec<usize> = Vec::new();
        let ghost mut p: Seq<int> = Seq::empty();
        let mut k: usize = 0;
        while k < vis
            invariant
                *self == c0,
                c0.wf(),
                vis <= c0.indices@.len(),
                s == c0.indices@.take(vis as int),
                k <= vis,
                sort_inv(c0, keys@, dir, s, r@, p, k as int),
            decreases vis - k,
        {
            let x = self.indices[k];
            assert(x == s[k as int]);
            assert(x < c0.indices@.len()) by {
                assert(c0.indices@[k as int] < c0.cells@.len());
            }
            assert forall|a: int| 0 <= a < k implies #[trigger] r@[a] < c0.indices@.len() by {
                assert(r@[a] == s[p[a]]);
                assert(c0.indices@[p[a]] < c0.cells@.len());
            }
            let mut j = r.len();
            while j > 0 && goes_before(self, keys, &dir, x, r[j - 1])
                invariant
                    *self == c0,
                    c0.wf(),
                    x < c0.indices@.len(),
                    forall|a: int| 0 <= a < k ==> #[trigger] r@[a] < c0.indices@.len(),
                    j <= r@.len(),
                    r@.len() == k,
                    k < vis <= c0.indices@.len(),
                    s == c0.indices@.take(vis as int),
                    x == c0.indices@[k as int],
                    sort_inv(c0, keys@, dir, s, r@, p, k as int),
                    forall|i: int| j <= i < k ==> idx_precedes(c0, keys@, dir, x, #[trigger] r@[i]),
                decreases j,
            {
                proof {
                    assert(r@[j - 1] == s[p[j - 1]]);
                }
                j -= 1;
            }
            proof {
                lemma_insert_step(c0, keys@, dir, s, r@, p, k as int, j as int, x);
                p = p.insert(j as int, k as int);
            }
            r.insert(j, x);
            k += 1;
        }
        let ghost r0 = r@;
        let mut i = vis;
        while i < self.indices.len()
            invariant
                *self == c0,
                vis <= i <= c0.indices@.len(),
                r0.len() == vis,
                r@ == r0 + c0.indices@.subrange(vis as int, i as int),
            decreases c0.indices@.len() - i,
        {
            let v = self.indices[i];
            r.push(v);
            i += 1;
            assert(r@ =~= r0 + c0.indices@.subrange(vis as int, i as int));
        }
        proof {
            let n = c0.indices@.len();
            assert(c0.indices@.subrange(vis as int, n as int) =~= c0.indices@.skip(vis as int));
            assert(r@.take(vis as int) =~= r0);
            assert(r@.skip(vis as int) =~= c0.indices@.skip(vis as int));
            assert(stably_sorted(c0, keys@, dir, s, r0, p));
            assert forall|a: int| 0 <= a < r@.len() implies #[trigger] r@[a] < c0.cells@.len() by {
                if a < vis {
                    assert(r@[a] == s[p[a]]);
                    assert(s[p[a]] == c0.indices@[p[a]]);
                } else {
                    assert(r@[a] == c0.indices@[a]);
                }
            }
            assert forall|a: int, b: int| 0 <= a < b < r@.len() implies r@[a] != r@[b] by {
                if b < vis {
                    assert(r@[a] == c0.indices@[p[a]] && r@[b] == c0.indices@[p[b]]);
                    assert(p[a] != p[b]);
                } else if a < vis {
                    assert(r@[a] == c0.indices@[p[a]] && r@[b] == c0.indices@[b]);
                    assert(p[a] < vis <= b);
                } else {
                    assert(r@[a] == c0.indices@[a] && r@[b] == c0.indices@[b]);
                }
            }
        }
        self.indices = r;
    }
}

} // verus!

verus! {

/// Sorting a column's rows and then reverting it gives back the column's
/// cells in their stored order, shown in that order.
pub proof fn lemma_revert_undoes_sort(
    before: Column,
    keys: Seq<u32>,
    dir: Sort,
    vis: int,
    sorted: Column,
    after: Column,
)
    requires
        before.wf(),
        before.padding == 0,
        before.indices@ == crate::cells::identity(before.cells@.len()),
        sorted.cells@ == before.cells@,
        sorted.padding == before.padding,
        sorted_rows(before, keys, dir, vis, sorted.indices@),
        crate::cells::revert_post(sorted, after),
    ensures
        after.cells@ == before.cells@,
        after.indices@ == before.indices@,
        after.padding == 0,
        after.rows() == before.rows(),
{
    assert(after.cells@ =~= before.cells@);
    assert(after.rows() =~= before.rows());
}

/// Of two sorted rows `a < b`, the later never goes strictly before the
/// earlier, and both name rows of the column.
proof fn lemma_sorted_pair(c: Column, keys: Seq<u32>, dir: Sort, vis: int, r: Seq<usize>, a: int, b: int)
    requires
        c.wf(),
        vis <= c.indices@.len(),
        sorted_rows(c, keys, dir, vis, r),
        0 <= a < b < vis,
    ensures
        (r[a] as int) < c.indices@.len(),
        (r[b] as int) < c.indices@.len(),
        !idx_precedes(c, keys, dir, r[b], r[a]),
        c.indices@ == crate::cells::identity(c.cells@.len()) && !idx_precedes(c, keys, dir, r[a], r[b]) ==> r[a] < r[b],
{
    let s = c.indices@.take(vis);
    let p = choose|p: Seq<int>| #[trigger] stably_sorted(c, keys, dir, s, r.take(vis), p);
    assert(stably_sorted(c, keys, dir, s, r.take(vis), p));
    assert(r.take(vis)[a] == r[a] && r.take(vis)[b] == r[b]);
    assert(r[a] == s[p[a]] && r[b] == s[p[b]]);
    assert(s[p[a]] == c.indices@[p[a]] && s[p[b]] == c.indices@[p[b]]);
}

/// Law: after a numeric sort of the first `vis` rows, of two of them at
/// positions `a < b`, the key of the later (0 past the keys) is not below
/// that of the earlier ascending, and not above it descending.
pub proof fn lemma_num_sort_ordered(c: Column, keys: Seq<u32>, dir: Sort, vis: int, r: Seq<usize>, a: int, b: int)
    requires
        c.wf(),
        vis <= c.indices@.len(),
        sorted_rows(c, keys, dir, vis, r),
        0 <= a < b < vis,
    ensures
        ({
            let ka: u32 = if (r[a] as int) < keys.len() { keys[r[a] as int] } else { 0 };
            let kb: u32 = if (r[b] as int) < keys.len() { keys[r[b] as int] } else { 0 };
            &&& dir == Sort::AscNum ==> ka <= kb
            &&& dir == Sort::DescNum ==> kb <= ka
        }),
{
    lemma_sorted_pair(c, keys, dir, vis, r, a, b);
}

/// Law: after an alphabetical sort of the first `vis` rows, of two of them at
/// positions `a < b`, whose texts (those of the rows their indices named
/// before the sort) are `ta` and `tb`: ascending, an empty text is followed
/// only by empty texts and `tb` never comes before a non-empty `ta` letter by
/// letter; descending, `ta` never comes before `tb`.
pub proof fn lemma_alpha_sort_ordered(c: Column, keys: Seq<u32>, dir: Sort, vis: int, r: Seq<usize>, a: int, b: int)
    requires
        c.wf(),
        vis <= c.indices@.len(),
        sorted_rows(c, keys, dir, vis, r),
        0 <= a < b < vis,
    ensures
        (r[a] as int) < c.indices@.len(),
        (r[b] as int) < c.indices@.len(),
        ({
            let ta = c.cells@[c.indices@[r[a] as int] as int].content@;
            let tb = c.cells@[c.indices@[r[b] as int] as int].content@;
            &&& dir == Sort::AscAlph ==> (ta.len() == 0 ==> tb.len() == 0)
            &&& dir == Sort::AscAlph ==> (ta.len() > 0 && tb.len() > 0 ==> !lex_lt(tb, ta))
            &&& dir == Sort::DescAlph ==> !lex_lt(ta, tb)
        }),
{
    lemma_sorted_pair(c, keys, dir, vis, r, a, b);
}

/// Law: sorting the first `vis` rows of a column shown in stored order
/// alphabetically ascending shows, of two of those rows `a < b`, an empty
/// text only after empty texts and a non-empty text never after one it comes
/// before letter by letter; descending, never a text after one it comes
/// after; rows with the same text keep their stored order.
pub proof fn lemma_alpha_sort_shown(c: Column, keys: Seq<u32>, dir: Sort, vis: int, sorted: Column, a: int, b: int)
    requires
        c.wf(),
        c.indices@ == crate::cells::identity(c.cells@.len()),
        vis <= c.indices@.len(),
        sorted_rows(c, keys, dir, vis, sorted.indices@),
        sorted.cells@ == c.cells@,
        0 <= a < b < vis,
    ensures
        ({
            let ta = sorted.rows()[a].content;
            let tb = sorted.rows()[b].content;
            &&& dir == Sort::AscAlph ==> (ta.len() == 0 ==> tb.len() == 0)
            &&& dir == Sort::AscAlph ==> (ta.len() > 0 && tb.len() > 0 ==> !lex_lt(tb, ta))
            &&& dir == Sort::DescAlph ==> !lex_lt(ta, tb)
            &&& (dir == Sort::AscAlph || dir == Sort::DescAlph) && ta == tb ==> sorted.indices@[a] < sorted.indices@[b]
        }),
{
    let r = sorted.indices@;
    lemma_alpha_sort_ordered(c, keys, dir, vis, r, a, b);
    lemma_sorted_pair(c, keys, dir, vis, r, a, b);
    assert(c.indices@[r[a] as int] == r[a]);
    assert(c.indices@[r[b] as int] == r[b]);
    let ta = sorted.rows()[a].content;
    if ta == sorted.rows()[b].content {
        lemma_lex_irrefl(ta);
        assert(text_of_row(c, r[a]) == ta && text_of_row(c, r[b]) == ta);
    }
}

/// The first of the cells `h` from `i` on whose text is `t`.
pub open spec fn first_with(h: Seq<crate::cells::Cell>, t: Seq<char>, i: int) -> Option<int>
    decreases h.len() - i,
{
    if i < 0 || i >= h.len() {
        None
    } else if h[i].content@ == t {
        Some(i)
    } else {
        first_with(h, t, i + 1)
    }
}

proof fn lemma_first_with(h: Seq<crate::cells::Cell>, t: Seq<char>, i: int, k: Option<int>)
    requires
        0 <= i,
        k matches Some(j) ==> i <= j < h.len() && h[j].content@ == t && forall|q: int|
            i <= q < j ==> #[trigger] h[q].content@ != t,
        k is None ==> forall|q: int| i <= q < h.len() ==> #[trigger] h[q].content@ != t,
    ensures
        first_with(h, t, i) == k,
    decreases h.len() - i,
{
    if i < h.len() {
        if h[i].content@ != t {
            lemma_first_with(h, t, i + 1, k);
        }
    }
}

pub proof fn lemma_first_with_bound(h: Seq<crate::cells::Cell>, t: Seq<char>, i: int)
    ensures
        first_with(h, t, i) matches Some(k) ==> 0 <= i <= k < h.len(),
    decreases h.len() - i,
{
    if 0 <= i < h.len() && h[i].content@ != t {
        lemma_first_with_bound(h, t, i + 1);
    }
}

/// The column that the reference `id` names: a quoted name is looked up
/// among the column names, anything else among the column ids.
pub open spec fn col_target(c: crate::cells::Cells, id: Seq<char>) -> Option<int> {
    if crate::cells::is_quote(id[0]) {
        first_with(c.header@, crate::cells::quoted_name(id), 0)
    } else {
        first_with(c.col_ids@, id, 0)
    }
}

impl crate::cells::Cells {
    /// The column that `id` names, or the error that says none does.
    pub fn col_lookup<'a>(&self, id: &'a str) -> (r: Result<usize, crate::cmd_err::CmdErr<'a>>)
        requires
            crate::cells::col_ref_ok(id@),
        ensures
            col_target(*self, id@) matches Some(k) ==> r == Ok::<usize, crate::cmd_err::CmdErr<'a>>(k as usize),
            col_target(*self, id@) is None && crate::cells::is_quote(id@[0]) ==> r == Err::<usize, crate::cmd_err::CmdErr<'a>>(
                crate::cmd_err::CmdErr::NoName(id),
            ),
            col_target(*self, id@) is None && !crate::cells::is_quote(id@[0]) ==> r == Err::<usize, crate::cmd_err::CmdErr<'a>>(
                crate::cmd_err::CmdErr::NoId(id),
            ),
            r matches Ok(k) ==> k < self.header@.len() || k < self.col_ids@.len(),
    {
        let r = self.get_col_idx(id);
        proof {
            if crate::cells::is_quote(id@[0]) {
                match r {
                    Ok(k) => lemma_first_with(self.header@, crate::cells::quoted_name(id@), 0, Some(k as int)),
                    Err(_) => lemma_first_with(self.header@, crate::cells::quoted_name(id@), 0, None),
                }
            } else {
                match r {
                    Ok(k) => lemma_first_with(self.col_ids@, id@, 0, Some(k as int)),
                    Err(_) => lemma_first_with(self.col_ids@, id@, 0, None),
                }
            }
        }
        r
    }
}

/// `col_ref_ok(id)`.
pub fn col_ref_ok_exec(id: &str) -> (b: bool)
    ensures
        b == crate::cells::col_ref_ok(id@),
{
    let chars = crate::text::to_chars(id);
    if chars.len() == 0 {
        return false;
    }
    let first = chars[0];
    if first == '\'' || first == '"' {
        chars.len() >= 2
    } else {
        true
    }
}

} // verus!

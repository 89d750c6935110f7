//! Names of the backup copies kept of a file before it is written, and how
//! many old copies go when a new one is made.
use vstd::prelude::*;

use crate::text::{dec_text, parse_usize, push_dec, push_range, push_text, to_chars};

verus! {

/// `{prefix}_{stamp}.{ext}`.
pub open spec fn backup_name_text(prefix: Seq<char>, stamp: nat, ext: Seq<char>) -> Seq<char> {
    prefix + "_"@ + dec_text(stamp) + "."@ + ext
}

/// The characters of `s` before its first `sep` (all of `s` without one).
pub open spec fn first_part(s: Seq<char>, sep: char) -> Seq<char> {
    if s.contains(sep) {
        s.take(choose|i: int| 0 <= i < s.len() && s[i] == sep && forall|j: int| 0 <= j < i ==> s[j] != sep)
    } else {
        s
    }
}

/// The characters of `s` after its last `sep` (all of `s` without one).
pub open spec fn last_part(s: Seq<char>, sep: char) -> Seq<char> {
    if s.contains(sep) {
        s.skip(
            (choose|i: int| 0 <= i < s.len() && s[i] == sep && forall|j: int| i < j < s.len() ==> s[j] != sep)
                + 1,
        )
    } else {
        s
    }
}

/// The name of a backup of a file with stem `prefix` and extension `ext`
/// made at time `stamp`.
pub fn backup_file_name(prefix: &str, stamp: usize, ext: &str) -> (r: String)
    ensures
        r@ == backup_name_text(prefix@, stamp as nat, ext@),
{
    let mut r = String::new();
    push_text(&mut r, prefix);
    push_text(&mut r, "_");
    push_dec(&mut r, stamp);
    push_text(&mut r, ".");
    push_text(&mut r, ext);
    r
}

/// How many of the `n` backups already kept (oldest first) are removed when
/// a new one is written: those beyond the newest nine.
pub fn stale_backups(n: usize) -> (r: usize)
    ensures
        r == (if n >= 10 {
            n - 9
        } else {
            0
        }),
{
    let mut left = n;
    let mut r: usize = 0;
    while r < n && left >= 10
        invariant
            r <= n,
            left == n - r,
            n >= 10 ==> r <= n - 9,
            n < 10 ==> r == 0,
        decreases n - r,
    {
        r += 1;
        left -= 1;
    }
    r
}

/// The index of the first `sep` in `v`, if any.
fn first_index(v: &Vec<char>, sep: char) -> (r: Option<usize>)
    ensures
        r matches Some(i) ==> i < v@.len() && v@[i as int] == sep && forall|j: int| 0 <= j < i ==> v@[j] != sep,
        r is None ==> !v@.contains(sep),
{
    let mut i: usize = 0;
    while i < v.len()
        invariant
            i <= v@.len(),
            forall|j: int| 0 <= j < i ==> v@[j] != sep,
        decreases v@.len() - i,
    {
        if v[i] == sep {
            return Some(i);
        }
        i += 1;
    }
    None
}

/// The index of the last `sep` in `v`, if any.
fn last_index(v: &Vec<char>, sep: char) -> (r: Option<usize>)
    ensures
        r matches Some(i) ==> i < v@.len() && v@[i as int] == sep && forall|j: int| i < j < v@.len() ==> v@[j] != sep,
        r is None ==> !v@.contains(sep),
{
    let mut i: usize = v.len();
    while i > 0
        invariant
            i <= v@.len(),
            forall|j: int| i <= j < v@.len() ==> v@[j] != sep,
        decreases i,
    {
        if v[i - 1] == sep {
            return Some(i - 1);
        }
        i -= 1;
    }
    None
}

/// The characters of `s` before its first `sep`.
fn first_part_of(s: &str, sep: char) -> (r: String)
    ensures
        r@ == first_part(s@, sep),
{
    let v = to_chars(s);
    let mut r = String::new();
    match first_index(&v, sep) {
        Some(i) => {
            push_range(&mut r, &v, 0, i);
            proof {
                let k = choose|k: int| 0 <= k < s@.len() && s@[k] == sep && forall|j: int| 0 <= j < k ==> s@[j] != sep;
                assert(k == i);
                assert(v@.subrange(0, i as int) =~= s@.take(i as int));
            }
        },
        None => {
            push_range(&mut r, &v, 0, v.len());
            assert(v@.subrange(0, v@.len() as int) =~= s@);
        },
    }
    r
}

/// The name of the first backup of a file with stem `stem`: its part before
/// the first `.`, then `_0.`, then that part again.
pub fn first_backup_name(stem: &str) -> (r: String)
    ensures
        r@ == backup_name_text(first_part(stem@, '.'), 0, first_part(stem@, '.')),
{
    let p = first_part_of(stem, '.');
    backup_file_name(p.as_str(), 0, p.as_str())
}

/// The characters of `s` after its last `sep`.
fn last_part_chars(s: &str, sep: char) -> (r: Vec<char>)
    ensures
        r@ == last_part(s@, sep),
{
    let v = to_chars(s);
    let len = v.len();
    let mut last: Vec<char> = Vec::new();
    let start = match last_index(&v, sep) {
        Some(i) => {
            assert(i < len);
            i + 1
        },
        None => 0,
    };
    let mut k = start;
    while k < v.len()
        invariant
            start <= k <= v@.len(),
            last@ == v@.subrange(start as int, k as int),
        decreases v@.len() - k,
    {
        last.push(v[k]);
        k += 1;
        assert(last@ =~= v@.subrange(start as int, k as int));
    }
    proof {
        if s@.contains(sep) {
            let i = choose|i: int|
                0 <= i < s@.len() && s@[i] == sep && forall|j: int| i < j < s@.len() ==> s@[j] != sep;
            assert(i == start - 1);
        }
        assert(last@ =~= last_part(s@, sep));
    }
    last
}

/// The name that follows the youngest backup `stem`.`ext`: the part of the
/// stem before its first `_`, then its last `_`-separated part read as a
/// number (0 when it is none) plus one. `None` when that number is the
/// largest one.
pub fn following_backup_name(stem: &str, ext: &str) -> (r: Option<String>)
    ensures
        ({
            let t = parse_usize(last_part(stem@, '_'));
            let n: nat = match t {
                Some(v) => v,
                None => 0,
            };
            &&& r is None <==> n == usize::MAX
            &&& r matches Some(name) ==> name@ == backup_name_text(first_part(stem@, '_'), n + 1, ext@)
        }),
{
    let prefix = first_part_of(stem, '_');
    let last = last_part_chars(stem, '_');
    let n: usize = match crate::text::parse_usize_chars(&last) {
        Some(v) => v,
        None => 0,
    };
    if n == usize::MAX {
        return None;
    }
    Some(backup_file_name(prefix.as_str(), n + 1, ext))
}

} // verus!

verus! {

/// The time stamp in the stem of a backup: its last `_`-separated part read
/// as a number, 0 when it is none.
pub open spec fn backup_stamp(stem: Seq<char>) -> nat {
    match parse_usize(last_part(stem, '_')) {
        Some(v) => v,
        None => 0,
    }
}

/// The time stamp of backup `k` among the stems `stems`.
pub open spec fn stamp_of(stems: Seq<String>, k: int) -> nat {
    backup_stamp(stems[k]@)
}

/// The number of old backups that go when a new one joins `n` of them.
pub open spec fn stale_count(n: nat) -> nat {
    if n >= 10 {
        (n - 9) as nat
    } else {
        0
    }
}

/// Whether `r` picks the oldest `stale_count(n)` of the backups with stems
/// `stems`, oldest first: distinct backups, in order of their time stamps,
/// none younger than one left.
pub open spec fn oldest_picked(stems: Seq<String>, r: Seq<usize>) -> bool {
    &&& r.len() == stale_count(stems.len())
    &&& forall|i: int| 0 <= i < r.len() ==> #[trigger] r[i] < stems.len()
    &&& forall|i: int, j: int| 0 <= i < j < r.len() ==> r[i] != r[j]
    &&& forall|i: int, j: int|
        #![trigger stamp_of(stems, r[i] as int), stamp_of(stems, r[j] as int)]
        0 <= i < j < r.len() ==> stamp_of(stems, r[i] as int) <= stamp_of(stems, r[j] as int)
    &&& forall|i: int, k: int|
        #![trigger stamp_of(stems, r[i] as int), stamp_of(stems, k)]
        0 <= i < r.len() && 0 <= k < stems.len() && !r.contains(k as usize) ==> stamp_of(stems, r[i] as int)
            <= stamp_of(stems, k)
}

/// The time stamp in the stem `stem`.
fn stamp_in(stem: &str) -> (n: usize)
    ensures
        n == backup_stamp(stem@),
{
    let last = last_part_chars(stem, '_');
    match crate::text::parse_usize_chars(&last) {
        Some(v) => v,
        None => 0,
    }
}

/// The backups (given by their file stems, in any order) that go when a new
/// one is made so that the newest ten remain: the oldest by time stamp,
/// oldest first.
pub fn oldest_backups(stems: &Vec<String>) -> (r: Vec<usize>)
    ensures
        oldest_picked(stems@, r@),
{
    let n = stems.len();
    let mut st: Vec<usize> = Vec::new();
    let mut i: usize = 0;
    while i < n
        invariant
            i <= n,
            n == stems@.len(),
            st@.len() == i,
            forall|k: int| 0 <= k < i ==> #[trigger] st@[k] == stamp_of(stems@, k),
        decreases n - i,
    {
        st.push(stamp_in(stems[i].as_str()));
        i += 1;
    }
    let want = stale_backups(n);
    let mut p: Vec<usize> = Vec::new();
    let mut j: usize = 0;
    while j < n
        invariant
            j <= n,
            p@.len() == j,
            forall|k: int| 0 <= k < j ==> #[trigger] p@[k] == k,
        decreases n - j,
    {
        p.push(j);
        j += 1;
    }
    proof {
        assert forall|q: int| 0 <= q < n implies #[trigger] p@.contains(q as usize) by {
            assert(p@[q] == q as usize);
        }
    }
    let mut t: usize = 0;
    while t < want
        invariant
            n == stems@.len(),
            want == stale_count(n as nat),
            want < n || want == 0,
            t <= want,
            st@.len() == n,
            p@.len() == n,
            forall|k: int| 0 <= k < n ==> #[trigger] st@[k] == stamp_of(stems@, k),
            forall|i: int| 0 <= i < n ==> #[trigger] p@[i] < n,
            forall|i: int, j: int| 0 <= i < j < n ==> p@[i] != p@[j],
            forall|q: int| 0 <= q < n ==> #[trigger] p@.contains(q as usize),
            forall|i: int, j: int| 0 <= i < j < t ==> st@[p@[i] as int] <= st@[p@[j] as int],
            forall|i: int, m: int| 0 <= i < t && t <= m < n ==> st@[p@[i] as int] <= st@[p@[m] as int],
        decreases want - t,
    {
        let mut best: usize = t;
        let mut k: usize = t + 1;
        while k < n
            invariant
                t < n,
                t < k <= n,
                t <= best < k,
                st@.len() == n,
                p@.len() == n,
                forall|i: int| 0 <= i < n ==> #[trigger] p@[i] < n,
                forall|q: int| t <= q < k ==> st@[p@[best as int] as int] <= st@[p@[q] as int],
            decreases n - k,
        {
            if st[p[k]] < st[p[best]] {
                best = k;
            }
            k += 1;
        }
        let ghost p0 = p@;
        let a = p[t];
        let b = p[best];
        p.set(t, b);
        p.set(best, a);
        proof {
            assert(p@ =~= p0.update(t as int, b).update(best as int, a));
            assert forall|q: int| 0 <= q < n implies #[trigger] p@.contains(q as usize) by {
                assert(p0.contains(q as usize));
                let w = choose|w: int| 0 <= w < p0.len() && p0[w] == q as usize;
                if w == t {
                    assert(p@[best as int] == q as usize);
                } else if w == best {
                    assert(p@[t as int] == q as usize);
                } else {
                    assert(p@[w] == q as usize);
                }
            }
            assert forall|i: int, m: int| 0 <= i < t + 1 && t + 1 <= m < n implies st@[p@[i] as int]
                <= st@[p@[m] as int] by {
                if i < t {
                    if m == best {
                        assert(p@[m] == p0[t as int]);
                    } else {
                        assert(p@[m] == p0[m]);
                    }
                } else {
                    if m == best {
                        assert(p@[m] == p0[t as int]);
                    } else {
                        assert(p@[m] == p0[m]);
                    }
                }
            }
            assert forall|i: int, j: int| 0 <= i < j < t + 1 implies st@[p@[i] as int] <= st@[p@[j] as int] by {
                if j == t {
                    assert(p@[j] == p0[best as int]);
                }
            }
        }
        t += 1;
    }
    let mut r: Vec<usize> = Vec::new();
    let mut i: usize = 0;
    while i < want
        invariant
            i <= want,
            want <= n,
            p@.len() == n,
            r@ == p@.subrange(0, i as int),
        decreases want - i,
    {
        r.push(p[i]);
        i += 1;
        assert(r@ =~= p@.subrange(0, i as int));
    }
    proof {
        assert forall|i: int, k: int|
            #![trigger stamp_of(stems@, r@[i] as int), stamp_of(stems@, k)]
            0 <= i < r@.len() && 0 <= k < stems@.len() && !r@.contains(k as usize) implies stamp_of(
            stems@,
            r@[i] as int,
        ) <= stamp_of(stems@, k) by {
            assert(p@.contains(k as usize));
            let m = choose|m: int| 0 <= m < p@.len() && p@[m] == k as usize;
            if m < want {
                assert(r@[m] == p@[m]);
                assert(r@[m] == k as usize);
            }
            assert(r@[i] == p@[i]);
            assert(st@[p@[i] as int] <= st@[p@[m] as int]);
        }
        assert forall|i: int, j: int|
            #![trigger stamp_of(stems@, r@[i] as int), stamp_of(stems@, r@[j] as int)]
            0 <= i < j < r@.len() implies stamp_of(stems@, r@[i] as int) <= stamp_of(stems@, r@[j] as int) by {
            assert(st@[p@[i] as int] <= st@[p@[j] as int]);
        }
    }
    r
}

} // verus!

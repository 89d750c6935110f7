//! Character-level helpers shared by the sheet, the parser and the renderer:
//! conversions between strings and character vectors, trimming, substring
//! search and replacement, and the number formats the screen uses.
use vstd::prelude::*;

verus! {

/// `String::push` appends one character to the end of the string.
pub assume_specification[ String::push ](s: &mut String, ch: char)
    ensures
        final(s)@ == old(s)@.push(ch),
;

/// The characters of `s`, in order.
pub fn to_chars(s: &str) -> (v: Vec<char>)
    ensures
        v@ == s@,
{
    let mut v: Vec<char> = Vec::new();
    for c in it: s.chars()
        invariant
            it.seq() == s@,
            v@ == s@.subrange(0, it.index() as int),
    {
        v.push(c);
    }
    v
}

/// Appends the characters `v[lo..hi]` to `out`.
pub fn push_range(out: &mut String, v: &Vec<char>, lo: usize, hi: usize)
    requires
        lo <= hi <= v@.len(),
    ensures
        final(out)@ == old(out)@ + v@.subrange(lo as int, hi as int),
{
    let mut i = lo;
    while i < hi
        invariant
            lo <= i <= hi <= v@.len(),
            out@ == old(out)@ + v@.subrange(lo as int, i as int),
        decreases hi - i,
    {
        out.push(v[i]);
        i += 1;
        assert(v@.subrange(lo as int, i as int) == v@.subrange(lo as int, i - 1).push(v@[i - 1]));
    }
}

/// A string holding exactly the characters of `v`.
pub fn from_chars(v: &Vec<char>) -> (s: String)
    ensures
        s@ == v@,
{
    let mut s = String::new();
    push_range(&mut s, v, 0, v.len());
    assert(v@.subrange(0, v@.len() as int) == v@);
    s
}

/// Appends all characters of `t` to `out`.
pub fn push_text(out: &mut String, t: &str)
    ensures
        final(out)@ == old(out)@ + t@,
{
    for c in it: t.chars()
        invariant
            it.seq() == t@,
            out@ == old(out)@ + t@.subrange(0, it.index() as int),
    {
        out.push(c);
        assert(t@.subrange(0, it.index() + 1) == t@.subrange(0, it.index() as int).push(c));
    }
    assert(t@.subrange(0, t@.len() as int) == t@);
}

/// A fresh string with the characters of `t`.
pub fn text_of(t: &str) -> (s: String)
    ensures
        s@ == t@,
{
    let mut s = String::new();
    push_text(&mut s, t);
    s
}

/// Whether two strings hold the same characters.
pub fn same_text(a: &str, b: &str) -> (r: bool)
    ensures
        r == (a@ == b@),
{
    let va = to_chars(a);
    let vb = to_chars(b);
    seq_eq(&va, &vb)
}

/// Whether two character vectors are equal.
pub fn seq_eq(a: &Vec<char>, b: &Vec<char>) -> (r: bool)
    ensures
        r == (a@ == b@),
{
    if a.len() != b.len() {
        return false;
    }
    let mut i: usize = 0;
    while i < a.len()
        invariant
            a@.len() == b@.len(),
            i <= a@.len(),
            forall|j: int| 0 <= j < i ==> a@[j] == b@[j],
        decreases a@.len() - i,
    {
        if a[i] != b[i] {
            return false;
        }
        i += 1;
    }
    assert(a@ =~= b@);
    true
}

/// `char::is_whitespace`: the Unicode `White_Space` property.
pub open spec fn is_ws(c: char) -> bool {
    ||| ('\u{9}' <= c && c <= '\u{d}')
    ||| c == ' '
    ||| c == '\u{85}'
    ||| c == '\u{a0}'
    ||| c == '\u{1680}'
    ||| ('\u{2000}' <= c && c <= '\u{200a}')
    ||| c == '\u{2028}'
    ||| c == '\u{2029}'
    ||| c == '\u{202f}'
    ||| c == '\u{205f}'
    ||| c == '\u{3000}'
}

/// Whether `c` is Unicode white space.
pub fn is_whitespace(c: char) -> (r: bool)
    ensures
        r == is_ws(c),
{
    ('\u{9}' <= c && c <= '\u{d}') || c == ' ' || c == '\u{85}' || c == '\u{a0}' || c
        == '\u{1680}' || ('\u{2000}' <= c && c <= '\u{200a}') || c == '\u{2028}' || c
        == '\u{2029}' || c == '\u{202f}' || c == '\u{205f}' || c == '\u{3000}'
}

/// `s` without its leading white space.
pub open spec fn trim_start(s: Seq<char>) -> Seq<char>
    decreases s.len(),
{
    if s.len() > 0 && is_ws(s[0]) {
        trim_start(s.drop_first())
    } else {
        s
    }
}

/// `s` without its trailing white space.
pub open spec fn trim_end(s: Seq<char>) -> Seq<char>
    decreases s.len(),
{
    if s.len() > 0 && is_ws(s.last()) {
        trim_end(s.drop_last())
    } else {
        s
    }
}

/// `str::trim`: `s` without leading and trailing white space.
pub open spec fn trim(s: Seq<char>) -> Seq<char> {
    trim_end(trim_start(s))
}

proof fn lemma_trim_start_skip(s: Seq<char>, i: int)
    requires
        0 <= i <= s.len(),
        forall|j: int| 0 <= j < i ==> is_ws(#[trigger] s[j]),
    ensures
        trim_start(s) == trim_start(s.skip(i)),
    decreases i,
{
    if i > 0 {
        assert(s.skip(1) == s.drop_first());
        lemma_trim_start_skip(s.drop_first(), i - 1);
        assert(s.drop_first().skip(i - 1) == s.skip(i));
    } else {
        assert(s.skip(0) == s);
    }
}

proof fn lemma_trim_end_take(s: Seq<char>, k: int)
    requires
        0 <= k <= s.len(),
        forall|j: int| k <= j < s.len() ==> is_ws(#[trigger] s[j]),
    ensures
        trim_end(s) == trim_end(s.take(k)),
    decreases s.len() - k,
{
    if k < s.len() {
        assert(s.take(s.len() - 1) == s.drop_last());
        lemma_trim_end_take(s.drop_last(), k);
        assert(s.drop_last().take(k) == s.take(k));
    } else {
        assert(s.take(k) == s);
    }
}

/// The characters of `v` without leading and trailing white space.
pub fn trim_chars(v: &Vec<char>) -> (r: Vec<char>)
    ensures
        r@ == trim(v@),
{
    let mut a: usize = 0;
    while a < v.len() && is_whitespace(v[a])
        invariant
            a <= v@.len(),
            forall|j: int| 0 <= j < a ==> is_ws(#[trigger] v@[j]),
        decreases v@.len() - a,
    {
        a += 1;
    }
    proof {
        lemma_trim_start_skip(v@, a as int);
    }
    let ghost t = v@.skip(a as int);
    let mut b: usize = v.len();
    while b > a && is_whitespace(v[b - 1])
        invariant
            a <= b <= v@.len(),
            t == v@.skip(a as int),
            forall|j: int| b <= j < v@.len() ==> is_ws(#[trigger] v@[j]),
        decreases b,
    {
        b -= 1;
    }
    proof {
        assert forall|j: int| (b - a) <= j < t.len() implies is_ws(#[trigger] t[j]) by {
            assert(t[j] == v@[j + a]);
        }
        lemma_trim_end_take(t, (b - a) as int);
        assert(t.take((b - a) as int) == v@.subrange(a as int, b as int));
        if a == b || a == v@.len() {
        } else {
            assert(!is_ws(v@[a as int]));
        }
        let u = v@.subrange(a as int, b as int);
        if u.len() > 0 {
            assert(u[0] == v@[a as int]);
            assert(!is_ws(u[0]));
            assert(trim_start(t) == t) by {
                assert(t[0] == v@[a as int]);
            }
            assert(!is_ws(u.last()));
        } else {
            if a < v@.len() {
                assert(t.len() > 0);
                assert(t[0] == v@[a as int]);
            } else {
                assert(t.len() == 0);
            }
        }
    }
    let mut r: Vec<char> = Vec::new();
    let mut i = a;
    while i < b
        invariant
            a <= i <= b <= v@.len(),
            r@ == v@.subrange(a as int, i as int),
        decreases b - i,
    {
        r.push(v[i]);
        i += 1;
        assert(v@.subrange(a as int, i as int) == v@.subrange(a as int, i - 1).push(v@[i - 1]));
    }
    r
}

/// Whether `p` occurs in `s` starting at position `i`.
pub open spec fn occurs_at(s: Seq<char>, p: Seq<char>, i: int) -> bool {
    0 <= i && i + p.len() <= s.len() && s.subrange(i, i + p.len()) == p
}

/// `str::contains`: whether `p` occurs anywhere in `s`.
pub open spec fn contains_text(s: Seq<char>, p: Seq<char>) -> bool {
    exists|i: int| occurs_at(s, p, i)
}

/// Whether `p` occurs in `v` at position `i`.
pub fn matches_at(v: &Vec<char>, p: &Vec<char>, i: usize) -> (r: bool)
    ensures
        r == occurs_at(v@, p@, i as int),
{
    let n = v.len();
    if i > n || p.len() > n - i {
        return false;
    }
    let mut j: usize = 0;
    while j < p.len()
        invariant
            n == v@.len(),
            i + p@.len() <= n,
            j <= p@.len(),
            forall|k: int| 0 <= k < j ==> v@[i + k] == p@[k],
        decreases p@.len() - j,
    {
        assert(i + j < v@.len());
        if v[i + j] != p[j] {
            assert(v@.subrange(i as int, i + p@.len())[j as int] == v@[i + j]);
            return false;
        }
        j += 1;
    }
    assert(v@.subrange(i as int, i + p@.len()) =~= p@);
    true
}

/// Whether `p` occurs anywhere in `v`.
pub fn contains_chars(v: &Vec<char>, p: &Vec<char>) -> (r: bool)
    ensures
        r == contains_text(v@, p@),
{
    if p.len() > v.len() {
        return false;
    }
    let last = v.len() - p.len();
    let mut i: usize = 0;
    loop
        invariant
            p@.len() <= v@.len(),
            last == v@.len() - p@.len(),
            i <= last,
            forall|k: int| 0 <= k < i ==> !occurs_at(v@, p@, k),
        decreases last - i,
    {
        if matches_at(v, p, i) {
            return true;
        }
        if i == last {
            assert forall|k: int| occurs_at(v@, p@, k) implies false by {
                assert(k <= last);
            }
            return false;
        }
        i += 1;
    }
}

/// `str::replace` for a non-empty pattern: every non-overlapping occurrence
/// of `p`, scanning from the left, is replaced by `r`.
pub open spec fn replace_nonempty(s: Seq<char>, p: Seq<char>, r: Seq<char>) -> Seq<char>
    recommends
        p.len() > 0,
    decreases s.len(),
{
    if p.len() == 0 || s.len() == 0 {
        s
    } else if occurs_at(s, p, 0) {
        r + replace_nonempty(s.skip(p.len() as int), p, r)
    } else {
        seq![s[0]] + replace_nonempty(s.drop_first(), p, r)
    }
}

/// `str::replace` for the empty pattern: `r` before every character and at the end.
pub open spec fn replace_empty(s: Seq<char>, r: Seq<char>) -> Seq<char>
    decreases s.len(),
{
    if s.len() == 0 {
        r
    } else {
        r + seq![s[0]] + replace_empty(s.drop_first(), r)
    }
}

/// `str::replace(s, p, r)`.
pub open spec fn replace_text(s: Seq<char>, p: Seq<char>, r: Seq<char>) -> Seq<char> {
    if p.len() == 0 {
        replace_empty(s, r)
    } else {
        replace_nonempty(s, p, r)
    }
}

proof fn lemma_replace_nonempty_step(s: Seq<char>, p: Seq<char>, r: Seq<char>, i: int)
    requires
        p.len() > 0,
        0 <= i < s.len(),
    ensures
        occurs_at(s, p, i) ==> replace_nonempty(s.skip(i), p, r) == r + replace_nonempty(
            s.skip(i + p.len()),
            p,
            r,
        ),
        !occurs_at(s, p, i) ==> replace_nonempty(s.skip(i), p, r) == seq![s[i]]
            + replace_nonempty(s.skip(i + 1), p, r),
{
    let t = s.skip(i);
    assert(t.len() > 0);
    if occurs_at(s, p, i) {
        assert(t.subrange(0, p.len() as int) == s.subrange(i, i + p.len()));
        assert(occurs_at(t, p, 0));
        assert(t.skip(p.len() as int) == s.skip(i + p.len()));
    } else {
        if i + p.len() <= s.len() {
            assert(t.subrange(0, p.len() as int) == s.subrange(i, i + p.len()));
        }
        assert(!occurs_at(t, p, 0));
        assert(t.drop_first() == s.skip(i + 1));
    }
}

/// The characters of `v` with every occurrence of `p` replaced by `r`,
/// as `str::replace` computes it.
pub fn replace_chars(v: &Vec<char>, p: &Vec<char>, r: &Vec<char>) -> (out: Vec<char>)
    ensures
        out@ == replace_text(v@, p@, r@),
{
    let mut out: Vec<char> = Vec::new();
    if p.len() == 0 {
        let mut i: usize = 0;
        assert(v@.skip(0) == v@);
        while i < v.len()
            invariant
                i <= v@.len(),
                out@ + replace_empty(v@.skip(i as int), r@) == replace_empty(v@, r@),
            decreases v@.len() - i,
        {
            let ghost before = out@;
            let mut k: usize = 0;
            while k < r.len()
                invariant
                    k <= r@.len(),
                    out@ == before + r@.subrange(0, k as int),
                decreases r@.len() - k,
            {
                out.push(r[k]);
                k += 1;
                assert(r@.subrange(0, k as int) == r@.subrange(0, k - 1).push(r@[k - 1]));
            }
            assert(r@.subrange(0, r@.len() as int) == r@);
            out.push(v[i]);
            proof {
                let t = v@.skip(i as int);
                assert(t.drop_first() == v@.skip(i + 1));
                assert(t[0] == v@[i as int]);
                assert(replace_empty(t, r@) == r@ + seq![t[0]] + replace_empty(t.drop_first(), r@));
                assert(out@ + replace_empty(v@.skip(i + 1), r@) == before + (r@ + seq![t[0]]
                    + replace_empty(t.drop_first(), r@)));
            }
            i += 1;
        }
        let mut k: usize = 0;
        let ghost before = out@;
        while k < r.len()
            invariant
                k <= r@.len(),
                out@ == before + r@.subrange(0, k as int),
            decreases r@.len() - k,
        {
            out.push(r[k]);
            k += 1;
            assert(r@.subrange(0, k as int) == r@.subrange(0, k - 1).push(r@[k - 1]));
        }
        assert(r@.subrange(0, r@.len() as int) == r@);
        assert(v@.skip(v@.len() as int).len() == 0);
        return out;
    }
    let mut i: usize = 0;
    assert(v@.skip(0) == v@);
    while i < v.len()
        invariant
            p@.len() > 0,
            i <= v@.len(),
            out@ + replace_nonempty(v@.skip(i as int), p@, r@) == replace_nonempty(v@, p@, r@),
        decreases v@.len() - i,
    {
        let ghost before = out@;
        proof {
            lemma_replace_nonempty_step(v@, p@, r@, i as int);
        }
        if matches_at(v, p, i) {
            let mut k: usize = 0;
            while k < r.len()
                invariant
                    k <= r@.len(),
                    out@ == before + r@.subrange(0, k as int),
                decreases r@.len() - k,
            {
                out.push(r[k]);
                k += 1;
                assert(r@.subrange(0, k as int) == r@.subrange(0, k - 1).push(r@[k - 1]));
            }
            assert(r@.subrange(0, r@.len() as int) == r@);
            i += p.len();
        } else {
            out.push(v[i]);
            i += 1;
        }
    }
    assert(v@.skip(i as int).len() == 0);
    out
}

/// The decimal digit character for `d < 10`.
pub open spec fn digit(d: nat) -> char {
    if d == 0 {
        '0'
    } else if d == 1 {
        '1'
    } else if d == 2 {
        '2'
    } else if d == 3 {
        '3'
    } else if d == 4 {
        '4'
    } else if d == 5 {
        '5'
    } else if d == 6 {
        '6'
    } else if d == 7 {
        '7'
    } else if d == 8 {
        '8'
    } else {
        '9'
    }
}

/// The upper-case hexadecimal digit character for `d < 16`.
pub open spec fn hex_digit(d: nat) -> char {
    if d < 10 {
        digit(d)
    } else if d == 10 {
        'A'
    } else if d == 11 {
        'B'
    } else if d == 12 {
        'C'
    } else if d == 13 {
        'D'
    } else if d == 14 {
        'E'
    } else {
        'F'
    }
}

/// `n` written in base `b` (2..=16) with upper-case digits and no leading zeros.
pub open spec fn radix_text(n: nat, b: nat) -> Seq<char>
    recommends
        2 <= b <= 16,
    decreases n,
{
    if b < 2 || n < b {
        seq![hex_digit(n)]
    } else {
        proof {
            assert(n / b < n) by (nonlinear_arith)
                requires
                    b >= 2,
                    n >= b,
            ;
        }
        radix_text(n / b, b).push(hex_digit(n % b))
    }
}

/// `format!("{}", n)`.
pub open spec fn dec_text(n: nat) -> Seq<char> {
    radix_text(n, 10)
}

/// `format!("{:X}", n)`.
pub open spec fn hex_text(n: nat) -> Seq<char> {
    radix_text(n, 16)
}

/// `n` spaces.
pub open spec fn spaces(n: nat) -> Seq<char> {
    Seq::new(n, |i: int| ' ')
}

/// `n` zero characters.
pub open spec fn zeros(n: nat) -> Seq<char> {
    Seq::new(n, |i: int| '0')
}

/// `format!("{:<w$}", s)`: `s` followed by spaces up to `w` characters.
pub open spec fn pad_right(s: Seq<char>, w: nat) -> Seq<char> {
    if s.len() >= w {
        s
    } else {
        s + spaces((w - s.len()) as nat)
    }
}

/// `format!("{:04X}", n)`.
pub open spec fn hex4_text(n: nat) -> Seq<char> {
    let h = hex_text(n);
    if h.len() >= 4 {
        h
    } else {
        zeros((4 - h.len()) as nat) + h
    }
}

fn digit_char(d: usize) -> (c: char)
    requires
        d < 16,
    ensures
        c == hex_digit(d as nat),
{
    if d == 0 {
        '0'
    } else if d == 1 {
        '1'
    } else if d == 2 {
        '2'
    } else if d == 3 {
        '3'
    } else if d == 4 {
        '4'
    } else if d == 5 {
        '5'
    } else if d == 6 {
        '6'
    } else if d == 7 {
        '7'
    } else if d == 8 {
        '8'
    } else if d == 9 {
        '9'
    } else if d == 10 {
        'A'
    } else if d == 11 {
        'B'
    } else if d == 12 {
        'C'
    } else if d == 13 {
        'D'
    } else if d == 14 {
        'E'
    } else {
        'F'
    }
}

/// `n` written in base `b` with upper-case digits.
pub fn radix_chars(n: usize, b: usize) -> (v: Vec<char>)
    requires
        2 <= b <= 16,
    ensures
        v@ == radix_text(n as nat, b as nat),
        v@.len() >= 1,
    decreases n,
{
    if n < b {
        let mut v: Vec<char> = Vec::new();
        v.push(digit_char(n));
        v
    } else {
        assert(n / b < n) by (nonlinear_arith)
            requires
                b >= 2,
                n >= b,
        ;
        let mut v = radix_chars(n / b, b);
        v.push(digit_char(n % b));
        v
    }
}

/// Appends `format!("{}", n)` to `out`.
pub fn push_dec(out: &mut String, n: usize)
    ensures
        final(out)@ == old(out)@ + dec_text(n as nat),
{
    let v = radix_chars(n, 10);
    push_range(out, &v, 0, v.len());
    assert(v@.subrange(0, v@.len() as int) == v@);
}

/// Appends `format!("{:04X}", n)` to `out`.
pub fn push_hex4(out: &mut String, n: usize)
    ensures
        final(out)@ == old(out)@ + hex4_text(n as nat),
{
    let v = radix_chars(n, 16);
    let ghost before = out@;
    let mut k = v.len();
    while k < 4
        invariant
            v@.len() <= k <= 4 || (k == v@.len() && k >= 4),
            out@ == before + zeros((k - v@.len()) as nat),
        decreases 4 - k,
    {
        out.push('0');
        k += 1;
        assert(zeros((k - v@.len()) as nat) == zeros((k - 1 - v@.len()) as nat).push('0'));
    }
    push_range(out, &v, 0, v.len());
    assert(v@.subrange(0, v@.len() as int) == v@);
    proof {
        if v@.len() >= 4 {
            assert(zeros(0) == Seq::<char>::empty());
            assert(before + zeros(0) == before);
        }
    }
}

/// Appends `n` spaces to `out`.
pub fn push_spaces(out: &mut String, n: usize)
    ensures
        final(out)@ == old(out)@ + spaces(n as nat),
{
    let ghost before = out@;
    let mut k: usize = 0;
    while k < n
        invariant
            k <= n,
            out@ == before + spaces(k as nat),
        decreases n - k,
    {
        out.push(' ');
        k += 1;
        assert(spaces(k as nat) == spaces((k - 1) as nat).push(' '));
    }
}

/// Appends `format!("{:<w$}", v)` to `out`.
pub fn push_padded(out: &mut String, v: &Vec<char>, w: usize)
    ensures
        final(out)@ == old(out)@ + pad_right(v@, w as nat),
{
    push_range(out, v, 0, v.len());
    assert(v@.subrange(0, v@.len() as int) == v@);
    if v.len() < w {
        push_spaces(out, w - v.len());
    }
}

/// The value of a decimal digit character.
pub open spec fn digit_value(c: char) -> int {
    c as int - '0' as int
}

/// Whether `c` is an ASCII decimal digit.
pub open spec fn is_digit(c: char) -> bool {
    '0' <= c && c <= '9'
}

/// The number that the digits `s` spell in base ten.
pub open spec fn digits_value(s: Seq<char>) -> nat
    decreases s.len(),
{
    if s.len() == 0 {
        0
    } else {
        (digits_value(s.drop_last()) * 10 + digit_value(s.last())) as nat
    }
}

/// The digits that `usize::from_str` reads: `s` without one leading `+`.
pub open spec fn unsigned_digits(s: Seq<char>) -> Seq<char> {
    if s.len() > 0 && s[0] == '+' {
        s.drop_first()
    } else {
        s
    }
}

/// `s.parse::<usize>()`: `Some(n)` when `s` is an optional `+` followed by
/// at least one decimal digit and the value fits in a `usize`.
pub open spec fn parse_usize(s: Seq<char>) -> Option<nat> {
    let d = unsigned_digits(s);
    if d.len() > 0 && (forall|i: int| 0 <= i < d.len() ==> is_digit(#[trigger] d[i]))
        && digits_value(d) <= usize::MAX {
        Some(digits_value(d))
    } else {
        None
    }
}

proof fn lemma_digits_value_mono(s: Seq<char>, k: int)
    requires
        0 <= k <= s.len(),
        forall|i: int| 0 <= i < s.len() ==> is_digit(#[trigger] s[i]),
    ensures
        digits_value(s.take(k)) <= digits_value(s),
    decreases s.len() - k,
{
    if k < s.len() {
        assert(s.drop_last().take(k) == s.take(k));
        assert forall|i: int| 0 <= i < s.drop_last().len() implies is_digit(
            #[trigger] s.drop_last()[i],
        ) by {
            assert(s.drop_last()[i] == s[i]);
        }
        lemma_digits_value_mono(s.drop_last(), k);
    } else {
        assert(s.take(k) == s);
    }
}

/// Reads the characters `v` as `usize::from_str` does.
pub fn parse_usize_chars(v: &Vec<char>) -> (r: Option<usize>)
    ensures
        r matches Some(n) ==> parse_usize(v@) == Some(n as nat),
        r is None ==> parse_usize(v@) is None,
{
    let start: usize = if v.len() > 0 && v[0] == '+' {
        1
    } else {
        0
    };
    let ghost d = unsigned_digits(v@);
    assert(d == v@.skip(start as int));
    if start >= v.len() {
        return None;
    }
    let mut n: usize = 0;
    let mut i = start;
    while i < v.len()
        invariant
            start <= i <= v@.len(),
            d == v@.skip(start as int),
            d == unsigned_digits(v@),
            forall|j: int| start <= j < i ==> is_digit(#[trigger] v@[j]),
            n as nat == digits_value(d.take(i - start)),
        decreases v@.len() - i,
    {
        let c = v[i];
        if c < '0' || c > '9' {
            assert(d[i - start] == c);
            assert(!is_digit(d[i - start]));
            assert(!(forall|q: int| 0 <= q < d.len() ==> is_digit(#[trigger] d[q])));
            assert(unsigned_digits(v@) == d);
            assert(parse_usize(v@) is None);
            return None;
        }
        let dv = (c as u32 - '0' as u32) as usize;
        assert(d.take(i - start + 1).drop_last() == d.take(i - start));
        assert(d.take(i - start + 1).last() == c);
        if n > (usize::MAX - dv) / 10 {
            proof {
                assert(digits_value(d.take(i - start + 1)) == n * 10 + dv);
                assert(n * 10 + dv > usize::MAX) by (nonlinear_arith)
                    requires
                        n > (usize::MAX - dv) / 10,
                        dv <= 9,
                ;
                if forall|q: int| 0 <= q < d.len() ==> is_digit(#[trigger] d[q]) {
                    lemma_digits_value_mono(d, i - start + 1);
                }
            }
            return None;
        }
        assert(n * 10 + dv <= usize::MAX) by (nonlinear_arith)
            requires
                n <= (usize::MAX - dv) / 10,
                dv <= 9,
        ;
        n = n * 10 + dv;
        i += 1;
    }
    assert(d.take(i - start) == d);
    proof {
        assert forall|j: int| 0 <= j < d.len() implies is_digit(#[trigger] d[j]) by {
            assert(d[j] == v@[j + start]);
        }
    }
    Some(n)
}

/// Whether the bytes `a..a + n` of the text `s` start and end between
/// characters.
pub open spec fn byte_slice_ok(s: Seq<char>, a: int, n: int) -> bool {
    let b = vstd::utf8::encode_utf8(s);
    vstd::utf8::is_char_boundary(b, a) && vstd::utf8::is_char_boundary(b.subrange(a, b.len() as int), n)
}

/// The characters that the bytes `a..a + n` of the text `s` encode.
pub open spec fn byte_slice_text(s: Seq<char>, a: int, n: int) -> Seq<char> {
    vstd::utf8::decode_utf8(vstd::utf8::encode_utf8(s).subrange(a, a + n))
}

/// The bytes `a..a + n` of `s`, when both ends fall between characters.
pub fn byte_slice(s: &str, a: usize, n: usize) -> (r: Option<&str>)
    requires
        a + n <= usize::MAX,
    ensures
        byte_slice_ok(s@, a as int, n as int) ==> (r matches Some(t) && t@ == byte_slice_text(s@, a as int, n as int)),
        !byte_slice_ok(s@, a as int, n as int) ==> r is None,
{
    if !s.is_char_boundary(a) {
        return None;
    }
    let (_pre, rest) = s.split_at(a);
    if !rest.is_char_boundary(n) {
        return None;
    }
    let (shown, _post) = rest.split_at(n);
    proof {
        let b = vstd::utf8::encode_utf8(s@);
        vstd::utf8::encode_utf8_valid_utf8(s@);
        assert(a <= b.len());
        vstd::utf8::encode_utf8_valid_utf8(rest@);
        let rb = vstd::utf8::encode_utf8(rest@);
        assert(rb =~= b.subrange(a as int, b.len() as int));
        assert(n <= rb.len());
        assert(vstd::utf8::encode_utf8(shown@) =~= rb.subrange(0, n as int));
        assert(rb.subrange(0, n as int) =~= b.subrange(a as int, a + n));
        vstd::utf8::encode_utf8_decode_utf8(shown@);
    }
    Some(shown)
}

} // verus!

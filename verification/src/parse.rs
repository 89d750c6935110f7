//! The pieces of a command line: tokens split on a delimiter outside quotes,
//! quoted names, decimal and hexadecimal numbers and row ranges.
use vstd::prelude::*;

use crate::cmd_err::CmdErr;

verus! {

/// The tokenizer's state: the token ranges found, the current token's range
/// (counted in characters) and the quote that is open.
pub struct TokState {
    pub ranges: Seq<(int, int)>,
    pub start: int,
    pub end: int,
    pub quote: Option<char>,
}

/// One character of the tokenizer: the delimiter outside quotes ends a
/// token; a quote opens or closes quoting (only its own kind closes it).
pub open spec fn tok_step(st: TokState, c: char, d: char) -> TokState {
    if c == d {
        if st.quote is None {
            TokState {
                ranges: st.ranges.push((st.start, st.end)),
                start: st.end + 1,
                end: st.end + 1,
                ..st
            }
        } else {
            TokState { end: st.end + 1, ..st }
        }
    } else if c == '"' || c == '\'' {
        TokState {
            quote: match st.quote {
                Some(q) => if q == c {
                    None
                } else {
                    Some(q)
                },
                None => Some(c),
            },
            end: st.end + 1,
            ..st
        }
    } else {
        TokState { end: st.end + 1, ..st }
    }
}

pub open spec fn tok_scan(s: Seq<char>, d: char) -> TokState
    decreases s.len(),
{
    if s.len() == 0 {
        TokState { ranges: Seq::empty(), start: 0, end: 0, quote: None }
    } else {
        tok_step(tok_scan(s.drop_last(), d), s.last(), d)
    }
}

/// The token ranges of `s`: positions counted in characters, used as byte
/// offsets into the text.
pub open spec fn token_ranges(s: Seq<char>, d: char) -> Seq<(int, int)> {
    let st = tok_scan(s, d);
    st.ranges.push((st.start, st.end))
}

/// Whether every token range of `s` can be cut out of its bytes.
pub open spec fn tokens_ok(s: Seq<char>, d: char) -> bool {
    forall|k: int|
        0 <= k < token_ranges(s, d).len() ==> crate::text::byte_slice_ok(
            s,
            (#[trigger] token_ranges(s, d)[k]).0,
            token_ranges(s, d)[k].1 - token_ranges(s, d)[k].0,
        )
}

/// The text of token `k` of `s`.
pub open spec fn token_text(s: Seq<char>, d: char, k: int) -> Seq<char> {
    let r = token_ranges(s, d)[k];
    crate::text::byte_slice_text(s, r.0, r.1 - r.0)
}

proof fn lemma_tok_scan_bounds(s: Seq<char>, d: char)
    ensures
        0 <= tok_scan(s, d).start <= tok_scan(s, d).end <= s.len(),
        forall|k: int|
            0 <= k < tok_scan(s, d).ranges.len() ==> 0 <= (#[trigger] tok_scan(s, d).ranges[k]).0
                <= tok_scan(s, d).ranges[k].1 <= s.len(),
    decreases s.len(),
{
    if s.len() > 0 {
        lemma_tok_scan_bounds(s.drop_last(), d);
    }
}

/// Splits `input` on `delim` outside quotes. The token positions count
/// characters but cut bytes, so `None` when a cut falls inside a character.
pub fn tokenize(input: &str, delim: char) -> (r: Option<Vec<&str>>)
    ensures
        tokens_ok(input@, delim) ==> (r matches Some(v) && v@.len() == token_ranges(input@, delim).len()
            && forall|k: int| 0 <= k < v@.len() ==> (#[trigger] v@[k])@ == token_text(input@, delim, k)),
        !tokens_ok(input@, delim) ==> r is None,
{
    let mut ranges: Vec<(usize, usize)> = Vec::new();
    let mut start: usize = 0;
    let mut end: usize = 0;
    let mut quote: Option<char> = None;
    let n = input.unicode_len();
    for c in it: input.chars()
        invariant
            it.seq() == input@,
            n == input@.len(),
            ({
                let st = tok_scan(input@.take(it.index() as int), delim);
                &&& ranges@.len() == st.ranges.len()
                &&& forall|k: int|
                    0 <= k < ranges@.len() ==> ((#[trigger] ranges@[k]).0 as int, ranges@[k].1 as int)
                        == st.ranges[k]
                &&& start == st.start
                &&& end == st.end
                &&& quote == st.quote
            }),
            end <= it.index(),
    {
        proof {
            let k = it.index() as int;
            assert(input@.take(k + 1).drop_last() == input@.take(k));
            assert(input@.take(k + 1).last() == c);
            lemma_tok_scan_bounds(input@.take(k), delim);
        }
        if c == delim {
            match quote {
                None => {
                    ranges.push((start, end));
                    end += 1;
                    start = end;
                },
                Some(_) => {
                    end += 1;
                },
            }
        } else if c == '"' || c == '\'' {
            match quote {
                Some(q) => {
                    if q == c {
                        quote = None;
                    }
                },
                None => {
                    quote = Some(c);
                },
            }
            end += 1;
        } else {
            end += 1;
        }
    }
    proof {
        assert(input@.take(input@.len() as int) == input@);
        lemma_tok_scan_bounds(input@, delim);
    }
    ranges.push((start, end));
    let ghost tr = token_ranges(input@, delim);
    assert(forall|k: int| 0 <= k < ranges@.len() ==> ((#[trigger] ranges@[k]).0 as int, ranges@[k].1 as int) == tr[k]);
    let mut tokens: Vec<&str> = Vec::new();
    let mut k: usize = 0;
    while k < ranges.len()
        invariant
            k <= ranges@.len(),
            ranges@.len() == tr.len(),
            tr == token_ranges(input@, delim),
            forall|j: int| 0 <= j < ranges@.len() ==> ((#[trigger] ranges@[j]).0 as int, ranges@[j].1 as int) == tr[j],
            forall|j: int| 0 <= j < tr.len() ==> 0 <= (#[trigger] tr[j]).0 <= tr[j].1,
            tokens@.len() == k,
            forall|j: int| 0 <= j < k ==> crate::text::byte_slice_ok(input@, tr[j].0, tr[j].1 - tr[j].0),
            forall|j: int| 0 <= j < k ==> (#[trigger] tokens@[j])@ == token_text(input@, delim, j),
        decreases ranges@.len() - k,
    {
        let (a, b) = ranges[k];
        match crate::text::byte_slice(input, a, b - a) {
            Some(t) => {
                tokens.push(t);
            },
            None => {
                proof {
                    assert(!crate::text::byte_slice_ok(input@, tr[k as int].0, tr[k as int].1 - tr[k as int].0));
                }
                return None;
            },
        }
        k += 1;
    }
    Some(tokens)
}

/// The position of the first `-` or `+` in `s`, with that character.
pub open spec fn range_delim(s: Seq<char>) -> Option<(int, char)> {
    if exists|i: int| 0 <= i < s.len() && (s[i] == '-' || s[i] == '+') {
        let i = choose|i: int|
            0 <= i < s.len() && (s[i] == '-' || s[i] == '+') && forall|j: int|
                0 <= j < i ==> s[j] != '-' && s[j] != '+';
        Some((i, s[i]))
    } else {
        None
    }
}

/// Splits a range on its first `-` or `+`, which is returned too; a range
/// with neither is one token.
pub fn tokenize_range(range: &str) -> (r: Option<(Vec<&str>, Option<char>)>)
    ensures
        match range_delim(range@) {
            Some((_, ch)) => if tokens_ok(range@, ch) {
                r matches Some((v, d)) && d == Some(ch) && v@.len() == token_ranges(range@, ch).len()
                    && forall|k: int| 0 <= k < v@.len() ==> (#[trigger] v@[k])@ == token_text(range@, ch, k)
            } else {
                r is None
            },
            None => r matches Some((v, d)) && d is None && v@.len() == 1 && v@[0] == range,
        },
{
    let mut i: usize = 0;
    let chars = crate::text::to_chars(range);
    while i < chars.len()
        invariant
            chars@ == range@,
            i <= chars@.len(),
            forall|j: int| 0 <= j < i ==> chars@[j] != '-' && chars@[j] != '+',
        decreases chars@.len() - i,
    {
        let ch = chars[i];
        if ch == '-' || ch == '+' {
            proof {
                let w = choose|w: int|
                    0 <= w < range@.len() && (range@[w] == '-' || range@[w] == '+') && forall|j: int|
                        0 <= j < w ==> range@[j] != '-' && range@[j] != '+';
                assert(0 <= i < range@.len() && (range@[i as int] == '-' || range@[i as int] == '+')
                    && forall|j: int| 0 <= j < i ==> range@[j] != '-' && range@[j] != '+');
                assert(w == i) by {
                    if w < i {
                        assert(range@[w] != '-' && range@[w] != '+');
                    } else if w > i {
                        assert(range@[i as int] != '-' && range@[i as int] != '+');
                    }
                }
            }
            return match tokenize(range, ch) {
                Some(t) => Some((t, Some(ch))),
                None => None,
            };
        }
        i += 1;
    }
    let mut v: Vec<&str> = Vec::new();
    v.push(range);
    Some((v, None))
}

} // verus!

verus! {

/// A name with its quotes taken off: after an opening quote, as many
/// characters as the name has bytes less two (at most the rest); a name
/// without an opening quote is kept.
pub open spec fn trimmed(q: Seq<char>) -> Seq<char> {
    if crate::cells::is_quote(q[0]) {
        let n = crate::cells::sat_sub(crate::cells::byte_len(q) as usize, 2) as int;
        let m = if n < q.len() - 1 {
            n
        } else {
            q.len() - 1
        };
        q.subrange(1, 1 + m)
    } else {
        q
    }
}

/// Takes the quotes off a non-empty name.
pub fn trim_quotes(q: &str) -> (r: String)
    requires
        q@.len() > 0,
    ensures
        r@ == trimmed(q@),
{
    let chars = crate::text::to_chars(q);
    let first = chars[0];
    if first == '\'' || first == '"' {
        let n = crate::cells::sat_sub_exec(q.len(), 2);
        let avail = chars.len() - 1;
        let m = if n < avail {
            n
        } else {
            avail
        };
        let mut out = String::new();
        crate::text::push_range(&mut out, &chars, 1, 1 + m);
        return out;
    }
    crate::text::text_of(q)
}

/// The value of a hexadecimal digit (either case).
pub open spec fn hex_value(c: char) -> Option<nat> {
    if '0' <= c && c <= '9' {
        Some((c as int - '0' as int) as nat)
    } else if 'A' <= c && c <= 'F' {
        Some((c as int - 'A' as int + 10) as nat)
    } else if 'a' <= c && c <= 'f' {
        Some((c as int - 'a' as int + 10) as nat)
    } else {
        None
    }
}

/// The value of the hexadecimal digit `c`, or the error that names it.
pub fn compute_valid_hex(c: char) -> (r: Result<usize, CmdErr<'static>>)
    ensures
        hex_value(c) matches Some(v) ==> r == Ok::<usize, CmdErr<'static>>(v as usize),
        hex_value(c) is None ==> r == Err::<usize, CmdErr<'static>>(CmdErr::InvalidHex(c)),
{
    if '0' <= c && c <= '9' {
        Ok((c as u32 - '0' as u32) as usize)
    } else if 'A' <= c && c <= 'F' {
        Ok((c as u32 - 'A' as u32 + 10) as usize)
    } else if 'a' <= c && c <= 'f' {
        Ok((c as u32 - 'a' as u32 + 10) as usize)
    } else {
        Err(CmdErr::InvalidHex(c))
    }
}

/// `16` to the power `e`.
pub open spec fn pow16(e: nat) -> nat
    decreases e,
{
    if e == 0 {
        1
    } else {
        16 * pow16((e - 1) as nat)
    }
}

/// What reading a hexadecimal number gives.
pub enum HexOut {
    /// Its value.
    Val(nat),
    /// The first character that is no hexadecimal digit.
    Bad(char),
    /// A power, product or sum overflowed, or the characters ran out.
    Panic,
}

/// Reading the digits of `t` from position `k` on, the digit at `k` worth
/// `16^(len - 1 - k)` where `len` is the byte length taken as the digit count
/// (the exponent cut to 32 bits), adding to `acc`.
pub open spec fn hex_loop(t: Seq<char>, len: int, k: int, acc: nat) -> HexOut
    decreases len - k,
{
    if k >= len {
        HexOut::Val(acc)
    } else if k < 0 || k >= t.len() {
        HexOut::Panic
    } else {
        match hex_value(t[k]) {
            None => HexOut::Bad(t[k]),
            Some(d) => {
                let p = pow16(((len - 1 - k) as u32) as nat);
                if p > usize::MAX || d * p > usize::MAX || acc + d * p > usize::MAX {
                    HexOut::Panic
                } else {
                    hex_loop(t, len, k + 1, acc + d * p)
                }
            },
        }
    }
}

proof fn lemma_hex_loop_bound(t: Seq<char>, len: int, k: int, acc: nat)
    requires
        acc <= usize::MAX,
    ensures
        hex_loop(t, len, k, acc) matches HexOut::Val(v) ==> v <= usize::MAX,
    decreases len - k,
{
    if k < len && 0 <= k < t.len() {
        match hex_value(t[k]) {
            Some(d) => {
                let p = pow16(((len - 1 - k) as u32) as nat);
                if !(p > usize::MAX || d * p > usize::MAX || acc + d * p > usize::MAX) {
                    lemma_hex_loop_bound(t, len, k + 1, acc + d * p);
                }
            },
            None => {},
        }
    }
}

/// What `hex_to_dec` reads from the (possibly quoted) text `s`.
pub open spec fn hex_read(s: Seq<char>) -> HexOut {
    let t = trimmed(s);
    hex_loop(t, (crate::cells::byte_len(t) as usize) as int, 0, 0)
}

fn pow16_exec(e: u32) -> (r: Option<usize>)
    ensures
        pow16(e as nat) <= usize::MAX ==> r == Some(pow16(e as nat) as usize),
        pow16(e as nat) > usize::MAX ==> r is None,
{
    let mut p: usize = 1;
    let mut i: u32 = 0;
    while i < e
        invariant
            i <= e,
            p == pow16(i as nat),
        decreases e - i,
    {
        if p > usize::MAX / 16 {
            proof {
                lemma_pow16_mono(i as nat, e as nat);
            }
            return None;
        }
        p = p * 16;
        i += 1;
    }
    Some(p)
}

proof fn lemma_pow16_mono(a: nat, b: nat)
    requires
        a < b,
    ensures
        16 * pow16(a) <= pow16(b),
    decreases b - a,
{
    if a + 1 < b {
        lemma_pow16_mono(a, (b - 1) as nat);
    }
}

/// Reads a hexadecimal row index such as `'00FF'`: `None` where reading
/// overflows or runs out of characters.
pub fn hex_to_dec<'a>(hex: &'a str) -> (r: Option<Result<usize, CmdErr<'a>>>)
    requires
        hex@.len() > 0,
    ensures
        hex_read(hex@) matches HexOut::Val(v) ==> r == Some(Ok::<usize, CmdErr<'a>>(v as usize)),
        hex_read(hex@) matches HexOut::Bad(c) ==> r == Some(Err::<usize, CmdErr<'a>>(CmdErr::InvalidHex(c))),
        hex_read(hex@) is Panic ==> r is None,
{
    let t = trim_quotes(hex);
    let len = t.as_str().len();
    let chars = crate::text::to_chars(t.as_str());
    let mut num: usize = 0;
    let mut k: usize = 0;
    while k < len
        invariant
            chars@ == trimmed(hex@),
            len == (crate::cells::byte_len(trimmed(hex@)) as usize),
            k <= len,
            hex_read(hex@) == hex_loop(chars@, len as int, k as int, num as nat),
        decreases len - k,
    {
        if k >= chars.len() {
            return None;
        }
        let c = chars[k];
        match compute_valid_hex(c) {
            Ok(d) => {
                let e = len - 1 - k;
                match pow16_exec(e as u32) {
                    None => {
                        return None;
                    },
                    Some(p) => {
                        if p != 0 && d > usize::MAX / p {
                            proof {
                                assert(d * p > usize::MAX) by (nonlinear_arith)
                                    requires
                                        p != 0,
                                        d > usize::MAX / p,
                                ;
                            }
                            return None;
                        }
                        proof {
                            assert(d * p <= usize::MAX) by (nonlinear_arith)
                                requires
                                    p == 0 || d <= usize::MAX / p,
                            ;
                        }
                        let dp = d * p;
                        if num > usize::MAX - dp {
                            return None;
                        }
                        num = num + dp;
                    },
                }
            },
            Err(e) => {
                return Some(Err(e));
            },
        }
        k += 1;
    }
    Some(Ok(num))
}

/// The value of the hexadecimal digit `c`, 0 for any other character.
pub open spec fn digit_value(c: char) -> nat {
    match hex_value(c) {
        Some(v) => v,
        None => 0,
    }
}

/// The number that the hexadecimal digits `t` write, the most significant
/// digit first.
pub open spec fn hex_number(t: Seq<char>) -> nat
    decreases t.len(),
{
    if t.len() == 0 {
        0
    } else {
        hex_number(t.drop_last()) * 16 + digit_value(t.last())
    }
}

/// Whether every character of `t` is a hexadecimal digit.
pub open spec fn all_hex(t: Seq<char>) -> bool {
    forall|i: int| 0 <= i < t.len() ==> (#[trigger] hex_value(t[i])) is Some
}

proof fn lemma_hex_number_front(s: Seq<char>)
    requires
        s.len() > 0,
    ensures
        hex_number(s) == digit_value(s[0]) * pow16((s.len() - 1) as nat) + hex_number(s.drop_first()),
    decreases s.len(),
{
    if s.len() == 1 {
        assert(s.drop_last().len() == 0);
        assert(s.drop_first().len() == 0);
        assert(s.last() == s[0]);
        assert(hex_number(s.drop_last()) == 0);
        assert(hex_number(s.drop_first()) == 0);
        assert(pow16(0) == 1);
        assert(digit_value(s[0]) * pow16(0) == digit_value(s[0]));
    } else {
        let a = s.drop_last();
        lemma_hex_number_front(a);
        assert(a[0] == s[0]);
        assert(a.drop_first() =~= s.drop_first().drop_last());
        assert(s.drop_first().last() == s.last());
        let d0 = digit_value(s[0]);
        let p = pow16((s.len() - 2) as nat);
        let h = hex_number(a.drop_first());
        assert(pow16((s.len() - 1) as nat) == 16 * p);
        assert((d0 * p + h) * 16 == d0 * (16 * p) + h * 16) by (nonlinear_arith);
        assert(hex_number(s) == hex_number(a) * 16 + digit_value(s.last()));
        assert(hex_number(s.drop_first()) == h * 16 + digit_value(s.last()));
    }
}

proof fn lemma_pow16_digits(n: nat)
    requires
        pow16(n) <= usize::MAX + 1,
    ensures
        n <= 16,
{
    if n > 16 {
        lemma_pow16_mono(16, n);
        reveal_with_fuel(pow16, 17);
        assert(pow16(16) == 0x1_0000_0000_0000_0000);
    }
}

proof fn lemma_hex_loop_value(t: Seq<char>, k: int, acc: nat)
    requires
        all_hex(t),
        t.len() <= 16,
        pow16(t.len()) <= usize::MAX + 1,
        0 <= k <= t.len(),
        acc + hex_number(t.skip(k)) <= usize::MAX,
    ensures
        hex_loop(t, t.len() as int, k, acc) == HexOut::Val(acc + hex_number(t.skip(k))),
    decreases t.len() - k,
{
    let n = t.len() as int;
    if k < n {
        let s = t.skip(k);
        lemma_hex_number_front(s);
        assert(s[0] == t[k]);
        assert(s.drop_first() =~= t.skip(k + 1));
        assert(hex_value(t[k]) is Some);
        let d = digit_value(t[k]);
        let e = (n - 1 - k) as nat;
        assert(((n - 1 - k) as u32) as nat == e);
        let p = pow16(e);
        if e < n - 1 {
            lemma_pow16_mono(e, (n - 1) as nat);
        }
        assert(pow16(n as nat) == 16 * pow16((n - 1) as nat));
        assert(p <= usize::MAX);
        assert(d * p <= hex_number(s));
        lemma_hex_loop_value(t, k + 1, acc + d * p);
    } else {
        assert(t.skip(k).len() == 0);
    }
}

proof fn lemma_ascii_byte_len(s: Seq<char>)
    requires
        forall|i: int| 0 <= i < s.len() ==> (#[trigger] s[i]) as u32 <= 0x7F,
    ensures
        crate::cells::byte_len(s) == s.len(),
    decreases s.len(),
{
    if s.len() > 0 {
        assert forall|i: int| 0 <= i < s.drop_first().len() implies (#[trigger] s.drop_first()[i]) as u32 <= 0x7F by {
            assert(s.drop_first()[i] == s[i + 1]);
        }
        lemma_ascii_byte_len(s.drop_first());
        assert(s[0] as u32 <= 0x7F);
    }
}

/// Law: a quoted row index of hexadecimal digits reads as the number they
/// write, the most significant digit first, wherever a `usize` holds every
/// number of that many digits.
pub proof fn lemma_hex_read_value(q: char, t: Seq<char>)
    requires
        crate::cells::is_quote(q),
        all_hex(t),
        pow16(t.len()) <= usize::MAX + 1,
    ensures
        hex_read(seq![q] + t + seq![q]) == HexOut::Val(hex_number(t)),
{
    let s = seq![q] + t + seq![q];
    lemma_pow16_digits(t.len());
    assert forall|i: int| 0 <= i < t.len() implies (#[trigger] t[i]) as u32 <= 0x7F by {
        assert(hex_value(t[i]) is Some);
    }
    assert forall|i: int| 0 <= i < s.len() implies (#[trigger] s[i]) as u32 <= 0x7F by {
        if 1 <= i <= t.len() {
            assert(s[i] == t[i - 1]);
        }
    }
    lemma_ascii_byte_len(s);
    lemma_ascii_byte_len(t);
    assert(s[0] == q);
    assert(s.subrange(1, 1 + t.len() as int) =~= t);
    assert(trimmed(s) == t);
    assert(t.skip(0) =~= t);
    lemma_hex_number_bound(t);
    lemma_hex_loop_value(t, 0, 0);
}

proof fn lemma_hex_number_bound(s: Seq<char>)
    requires
        all_hex(s),
    ensures
        hex_number(s) < pow16(s.len()),
    decreases s.len(),
{
    if s.len() > 0 {
        let a = s.drop_last();
        assert forall|i: int| 0 <= i < a.len() implies (#[trigger] hex_value(a[i])) is Some by {
            assert(a[i] == s[i]);
        }
        lemma_hex_number_bound(a);
        assert(hex_value(s[s.len() - 1]) is Some);
        assert(digit_value(s.last()) < 16);
    }
}

proof fn lemma_pow16_le(a: nat, b: nat)
    requires
        a <= b,
    ensures
        pow16(a) <= pow16(b),
{
    if a < b {
        lemma_pow16_mono(a, b);
    }
}

proof fn lemma_hex_digit_value(m: nat)
    requires
        m < 16,
    ensures
        hex_value(crate::text::hex_digit(m)) == Some(m),
{
}

proof fn lemma_hex_number_push(s: Seq<char>, c: char)
    ensures
        hex_number(s.push(c)) == hex_number(s) * 16 + digit_value(c),
{
    assert(s.push(c).drop_last() =~= s);
}

proof fn lemma_hex_text(n: nat)
    ensures
        all_hex(crate::text::hex_text(n)),
        hex_number(crate::text::hex_text(n)) == n,
        crate::text::hex_text(n).len() >= 1,
        crate::text::hex_text(n).len() >= 2 ==> pow16((crate::text::hex_text(n).len() - 1) as nat) <= n,
    decreases n,
{
    let h = crate::text::hex_text(n);
    if n < 16 {
        lemma_hex_digit_value(n);
        assert(h == seq![crate::text::hex_digit(n)]);
        lemma_hex_number_push(Seq::empty(), crate::text::hex_digit(n));
        assert(seq![crate::text::hex_digit(n)] =~= Seq::<char>::empty().push(crate::text::hex_digit(n)));
    } else {
        let m = n / 16;
        assert(m < n);
        lemma_hex_text(m);
        let g = crate::text::hex_text(m);
        assert(crate::text::radix_text(n, 16) == crate::text::radix_text(m, 16).push(crate::text::hex_digit(n % 16)));
        assert(h == g.push(crate::text::hex_digit(n % 16)));
        lemma_hex_digit_value(n % 16);
        lemma_hex_number_push(g, crate::text::hex_digit(n % 16));
        assert(n == m * 16 + n % 16);
        assert forall|i: int| 0 <= i < h.len() implies (#[trigger] hex_value(h[i])) is Some by {
            if i < g.len() {
                assert(h[i] == g[i]);
            }
        }
        if g.len() >= 2 {
            assert(pow16((h.len() - 1) as nat) == 16 * pow16((g.len() - 1) as nat));
        } else {
            assert(pow16(1) == 16 * pow16(0));
        }
    }
}

proof fn lemma_hex_number_zeros(k: nat, h: Seq<char>)
    ensures
        hex_number(crate::text::zeros(k) + h) == hex_number(h),
    decreases k,
{
    if k > 0 {
        let s = crate::text::zeros(k) + h;
        lemma_hex_number_front(s);
        assert(s[0] == '0');
        assert(s.drop_first() =~= crate::text::zeros((k - 1) as nat) + h);
        lemma_hex_number_zeros((k - 1) as nat, h);
        assert(digit_value('0') == 0);
        let dv = digit_value(s[0]);
        let pp = pow16((s.len() - 1) as nat);
        assert(dv == 0);
        assert(dv * pp == 0) by (nonlinear_arith)
            requires
                dv == 0,
        ;
    } else {
        assert(crate::text::zeros(k) + h =~= h);
    }
}

/// Law: a row index written as the hexadecimal row number shows it (upper
/// case, at least four digits) and quoted reads back as that index.
pub proof fn lemma_hex4_roundtrip(q: char, n: usize)
    requires
        crate::cells::is_quote(q),
    ensures
        hex_read(seq![q] + crate::text::hex4_text(n as nat) + seq![q]) == HexOut::Val(n as nat),
{
    let h = crate::text::hex_text(n as nat);
    lemma_hex_text(n as nat);
    let t = crate::text::hex4_text(n as nat);
    reveal_with_fuel(pow16, 17);
    assert(pow16(4) == 0x10000);
    assert(pow16(8) == 0x1_0000_0000);
    assert(pow16(16) == 0x1_0000_0000_0000_0000);
    if h.len() >= 4 {
        assert(t == h);
        let l = (h.len() - 1) as nat;
        if usize::MAX == 0xffff_ffff {
            if l >= 8 {
                lemma_pow16_le(8, l);
            }
            lemma_pow16_le(h.len(), 8);
        } else {
            assert(usize::MAX == 0xffff_ffff_ffff_ffff);
            if l >= 16 {
                lemma_pow16_le(16, l);
            }
            lemma_pow16_le(h.len(), 16);
        }
    } else {
        let z = crate::text::zeros((4 - h.len()) as nat);
        assert(t == z + h);
        lemma_hex_number_zeros((4 - h.len()) as nat, h);
        assert forall|i: int| 0 <= i < t.len() implies (#[trigger] hex_value(t[i])) is Some by {
            if i < z.len() {
                assert(t[i] == '0');
            } else {
                assert(t[i] == h[i - z.len()]);
            }
        }
        assert(t.len() == 4);
    }
    lemma_hex_read_value(q, t);
}

/// What `str_to_dec` reads from `s`.
pub enum DecOut {
    Val(nat),
    BadHex(char),
    BadDec,
    Panic,
}

/// A number as written in a command: a quoted hexadecimal row index or a
/// plain decimal number.
pub open spec fn dec_read(s: Seq<char>) -> DecOut {
    if s.len() == 0 {
        DecOut::Panic
    } else if crate::cells::is_quote(s[0]) {
        match hex_read(s) {
            HexOut::Val(v) => DecOut::Val(v),
            HexOut::Bad(c) => DecOut::BadHex(c),
            HexOut::Panic => DecOut::Panic,
        }
    } else {
        match crate::text::parse_usize(s) {
            Some(v) => DecOut::Val(v),
            None => DecOut::BadDec,
        }
    }
}

/// Reads a number written in a command: `None` where reading panics.
pub fn str_to_dec<'a>(s: &'a str) -> (r: Option<Result<usize, CmdErr<'a>>>)
    ensures
        dec_read(s@) matches DecOut::Val(v) ==> r == Some(Ok::<usize, CmdErr<'a>>(v as usize)) && v <= usize::MAX,
        dec_read(s@) matches DecOut::BadHex(c) ==> r == Some(Err::<usize, CmdErr<'a>>(CmdErr::InvalidHex(c))),
        dec_read(s@) is BadDec ==> r == Some(Err::<usize, CmdErr<'a>>(CmdErr::InvalidDec(s))),
        dec_read(s@) is Panic ==> r is None,
{
    let chars = crate::text::to_chars(s);
    if chars.len() == 0 {
        return None;
    }
    let first = chars[0];
    if first == '\'' || first == '"' {
        proof {
            let t = trimmed(s@);
            lemma_hex_loop_bound(t, (crate::cells::byte_len(t) as usize) as int, 0, 0);
        }
        hex_to_dec(s)
    } else {
        match crate::text::parse_usize_chars(&chars) {
            Some(v) => Some(Ok(v)),
            None => Some(Err(CmdErr::InvalidDec(s))),
        }
    }
}

} // verus!

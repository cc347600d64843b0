//! Byte-level text helpers shared by the identifier codec, the wire codec
//! and the directory persistence format.
//!
//! All protocol text is handled as ASCII byte sequences; `&str` literals are
//! bridged to byte sequences through [`ascii_seq`].

use vstd::prelude::*;

verus! {

/// The bytes of an ASCII character sequence, one byte per character.
pub open spec fn ascii_seq(cs: Seq<char>) -> Seq<u8> {
    Seq::new(cs.len(), |i: int| cs[i] as u8)
}

/// Appends the bytes of an ASCII string to `out`.
pub fn append_ascii(out: &mut Vec<u8>, s: &str)
    requires
        s.is_ascii(),
    ensures
        final(out)@ == old(out)@ + ascii_seq(s@),
{
    proof {
        broadcast use vstd::string::is_ascii_spec_bytes;
    }
    let bytes: &[u8] = s.as_bytes();
    let n: usize = bytes.len();
    let mut i: usize = 0;
    while i < n
        invariant
            n == bytes@.len(),
            bytes@ == ascii_seq(s@),
            0 <= i <= n,
            out@ == old(out)@ + bytes@.subrange(0, i as int),
        decreases n - i,
    {
        let b: u8 = bytes[i];
        out.push(b);
        i = i + 1;
        proof {
            assert(out@ =~= old(out)@ + bytes@.subrange(0, i as int));
        }
    }
    proof {
        assert(out@ =~= old(out)@ + ascii_seq(s@));
    }
}

/// Whether the bytes of `s` starting at `i` are exactly the bytes of the
/// ASCII pattern `pat`.
pub open spec fn lit_at(s: Seq<u8>, i: int, pat: Seq<char>) -> bool {
    &&& 0 <= i
    &&& i + pat.len() <= s.len()
    &&& s.subrange(i, i + pat.len() as int) == ascii_seq(pat)
}

/// Compares the bytes of `s` at offset `i` with the ASCII pattern `pat`.
pub fn match_lit(s: &[u8], i: usize, pat: &str) -> (r: bool)
    requires
        pat.is_ascii(),
    ensures
        r == lit_at(s@, i as int, pat@),
{
    proof {
        broadcast use vstd::string::is_ascii_spec_bytes;
    }
    let pb: &[u8] = pat.as_bytes();
    let m: usize = pb.len();
    let n: usize = s.len();
    if m > n || i > n - m {
        return false;
    }
    let mut j: usize = 0;
    while j < m
        invariant
            m == pb@.len(),
            n == s@.len(),
            pb@ == ascii_seq(pat@),
            i + m <= n,
            0 <= j <= m,
            forall|k: int| 0 <= k < j ==> s@[i + k] == pb@[k],
        decreases m - j,
    {
        if s[i + j] != pb[j] {
            proof {
                assert(s@.subrange(i as int, i + m as int)[j as int] != ascii_seq(pat@)[j as int]);
            }
            return false;
        }
        j = j + 1;
    }
    proof {
        assert(s@.subrange(i as int, i + m as int) =~= ascii_seq(pat@));
    }
    true
}

/// Whether `b` is an ASCII hexadecimal digit (either case).
pub open spec fn is_hex_digit(b: u8) -> bool {
    (48 <= b <= 57) || (97 <= b <= 102) || (65 <= b <= 70)
}

/// The value of a hexadecimal digit byte.
pub open spec fn hex_val(b: u8) -> u8
    recommends
        is_hex_digit(b),
{
    if 48 <= b <= 57 {
        (b - 48) as u8
    } else if 97 <= b <= 102 {
        (b - 87) as u8
    } else {
        (b - 55) as u8
    }
}

/// The lowercase hexadecimal digit byte for a value below 16.
pub open spec fn hex_digit(v: u8) -> u8
    recommends
        v < 16,
{
    if v < 10 {
        (v + 48) as u8
    } else {
        (v + 87) as u8
    }
}

/// The two lowercase hexadecimal digit bytes of a byte, high nibble first.
pub open spec fn hex_pair(v: u8) -> Seq<u8> {
    seq![hex_digit(v / 16), hex_digit(v % 16)]
}

/// Formatting a value below 16 gives a hexadecimal digit that reads back as
/// that value, and is never a hyphen.
pub proof fn lemma_hex_digit(v: u8)
    requires
        v < 16,
    ensures
        is_hex_digit(hex_digit(v)),
        hex_val(hex_digit(v)) == v,
        hex_digit(v) != 45,
{
}

/// The value of a hexadecimal digit byte, or `None` if `b` is not one.
pub fn hex_value(b: u8) -> (r: Option<u8>)
    ensures
        r is Some <==> is_hex_digit(b),
        r is Some ==> r->Some_0 == hex_val(b) && hex_val(b) < 16,
{
    if 48 <= b && b <= 57 {
        Some(b - 48)
    } else if 97 <= b && b <= 102 {
        Some(b - 87)
    } else if 65 <= b && b <= 70 {
        Some(b - 55)
    } else {
        None
    }
}

/// Whether the two bytes of `s` at `p` are hexadecimal digits.
pub open spec fn pair_ok(s: Seq<u8>, p: int) -> bool {
    &&& 0 <= p
    &&& p + 2 <= s.len()
    &&& is_hex_digit(s[p])
    &&& is_hex_digit(s[p + 1])
}

/// The byte encoded by the two hexadecimal digits of `s` at `p`, high
/// nibble first.
pub open spec fn pair_val(s: Seq<u8>, p: int) -> u8
    recommends
        pair_ok(s, p),
{
    (hex_val(s[p]) * 16 + hex_val(s[p + 1])) as u8
}

/// Reads the byte encoded by two hexadecimal digits of `s` at `p`.
pub fn read_pair(s: &[u8], p: usize) -> (r: Option<u8>)
    requires
        p + 2 <= s@.len(),
    ensures
        r is Some <==> pair_ok(s@, p as int),
        r is Some ==> r->Some_0 == pair_val(s@, p as int),
{
    let hi: Option<u8> = hex_value(s[p]);
    let lo: Option<u8> = hex_value(s[p + 1]);
    match (hi, lo) {
        (Some(h), Some(l)) => Some(h * 16 + l),
        _ => None,
    }
}

/// Appends the two lowercase hexadecimal digits of `v` to `out`.
pub fn push_pair(out: &mut Vec<u8>, v: u8)
    ensures
        final(out)@ == old(out)@ + hex_pair(v),
{
    let hi: u8 = v / 16;
    let lo: u8 = v % 16;
    let hb: u8 = if hi < 10 {
        hi + 48
    } else {
        hi + 87
    };
    let lb: u8 = if lo < 10 {
        lo + 48
    } else {
        lo + 87
    };
    out.push(hb);
    out.push(lb);
    proof {
        assert(out@ =~= old(out)@ + hex_pair(v));
    }
}

/// Relies on String::from_utf8_lossy: ASCII bytes decode to the characters
/// with the same code points, one character per byte.
#[verifier::external_body]
pub fn ascii_string(bytes: &Vec<u8>) -> (r: String)
    requires
        forall|i: int| 0 <= i < bytes@.len() ==> bytes@[i] < 128,
    ensures
        r@.len() == bytes@.len(),
        forall|i: int| 0 <= i < bytes@.len() ==> r@[i] == bytes@[i] as char,
{
    String::from_utf8_lossy(bytes).into_owned()
}

/// Reading back a formatted hexadecimal pair recovers the byte.
pub proof fn lemma_pair_round_trip(s: Seq<u8>, p: int, v: u8)
    requires
        0 <= p,
        p + 2 <= s.len(),
        s[p] == hex_digit(v / 16),
        s[p + 1] == hex_digit(v % 16),
    ensures
        pair_ok(s, p),
        pair_val(s, p) == v,
{
    lemma_hex_digit(v / 16);
    lemma_hex_digit(v % 16);
}

/// The double-quote byte that delimits string values.
pub const QUOTE: u8 = 34;

/// The backslash byte that starts an escape inside a string value.
pub const BACKSLASH: u8 = 92;

/// Appends a byte slice to `out`.
pub fn append_bytes(out: &mut Vec<u8>, s: &[u8])
    ensures
        final(out)@ == old(out)@ + s@,
{
    let n: usize = s.len();
    let mut i: usize = 0;
    while i < n
        invariant
            n == s@.len(),
            0 <= i <= n,
            out@ == old(out)@ + s@.subrange(0, i as int),
        decreases n - i,
    {
        let b: u8 = s[i];
        out.push(b);
        i = i + 1;
        proof {
            assert(out@ =~= old(out)@ + s@.subrange(0, i as int));
        }
    }
    proof {
        assert(out@ =~= old(out)@ + s@);
    }
}

/// The escaped form of one string byte: quotes and backslashes gain a
/// leading backslash, every other byte passes through.
pub open spec fn esc_char(c: u8) -> Seq<u8> {
    if c == QUOTE || c == BACKSLASH {
        seq![BACKSLASH, c]
    } else {
        seq![c]
    }
}

/// The escaped form of a string value's bytes.
pub open spec fn spec_escape(t: Seq<u8>) -> Seq<u8>
    decreases t.len(),
{
    if t.len() == 0 {
        Seq::empty()
    } else {
        esc_char(t[0]) + spec_escape(t.drop_first())
    }
}

/// Escaping a string one byte longer appends the escape of its last byte.
pub proof fn lemma_escape_snoc(t: Seq<u8>)
    requires
        t.len() > 0,
    ensures
        spec_escape(t) == spec_escape(t.drop_last()) + esc_char(t.last()),
    decreases t.len(),
{
    if t.len() == 1 {
        assert(t.drop_first() =~= Seq::<u8>::empty());
        assert(t.drop_last() =~= Seq::<u8>::empty());
        assert(spec_escape(t) =~= spec_escape(t.drop_last()) + esc_char(t.last()));
    } else {
        lemma_escape_snoc(t.drop_first());
        assert(t.drop_first().drop_last() =~= t.drop_last().drop_first());
        assert(t.drop_first().last() == t.last());
        assert(t.drop_last()[0] == t[0]);
        assert(t.drop_last().len() > 0);
        assert(spec_escape(t.drop_last()) == esc_char(t[0]) + spec_escape(
            t.drop_last().drop_first(),
        ));
        assert(spec_escape(t) =~= spec_escape(t.drop_last()) + esc_char(t.last()));
    }
}

/// Appends the escaped form of `t` to `out`.
pub fn append_escaped(out: &mut Vec<u8>, t: &[u8])
    ensures
        final(out)@ == old(out)@ + spec_escape(t@),
{
    let n: usize = t.len();
    let mut i: usize = 0;
    while i < n
        invariant
            n == t@.len(),
            0 <= i <= n,
            out@ == old(out)@ + spec_escape(t@.subrange(0, i as int)),
        decreases n - i,
    {
        let b: u8 = t[i];
        if b == QUOTE || b == BACKSLASH {
            out.push(BACKSLASH);
            out.push(b);
        } else {
            out.push(b);
        }
        i = i + 1;
        proof {
            let pre = t@.subrange(0, i as int);
            lemma_escape_snoc(pre);
            assert(pre.drop_last() =~= t@.subrange(0, i - 1));
            assert(out@ =~= old(out)@ + spec_escape(pre));
        }
    }
    proof {
        assert(t@.subrange(0, n as int) =~= t@);
    }
}

/// Scans a string value in `s` from `i`: bytes up to the next unescaped
/// quote, undoing the two escapes. `None` when no well-formed quoted value
/// starts at `i`; otherwise the value and the position just past its
/// closing quote.
pub open spec fn spec_scan(s: Seq<u8>, i: int) -> Option<(Seq<u8>, int)>
    decreases s.len() - i,
{
    if i < 0 || i >= s.len() {
        None
    } else if s[i] == QUOTE {
        Some((Seq::empty(), i + 1))
    } else if s[i] == BACKSLASH {
        if i + 1 < s.len() && (s[i + 1] == QUOTE || s[i + 1] == BACKSLASH) {
            match spec_scan(s, i + 2) {
                Some(r) => Some((seq![s[i + 1]] + r.0, r.1)),
                None => None,
            }
        } else {
            None
        }
    } else {
        match spec_scan(s, i + 1) {
            Some(r) => Some((seq![s[i]] + r.0, r.1)),
            None => None,
        }
    }
}

/// A successful scan ends inside the input, past where it began.
pub proof fn lemma_scan_bounds(s: Seq<u8>, i: int)
    requires
        spec_scan(s, i) is Some,
    ensures
        i < spec_scan(s, i)->Some_0.1 <= s.len(),
    decreases s.len() - i,
{
    if s[i] == QUOTE {
    } else if s[i] == BACKSLASH {
        lemma_scan_bounds(s, i + 2);
    } else {
        lemma_scan_bounds(s, i + 1);
    }
}

/// Scanning at the escaped form of `t` followed by a closing quote yields
/// `t` and stops just past that quote.
pub proof fn lemma_scan_escape(s: Seq<u8>, i: int, t: Seq<u8>)
    requires
        0 <= i,
        i + spec_escape(t).len() + 1 <= s.len(),
        s.subrange(i, i + spec_escape(t).len() as int) == spec_escape(t),
        s[i + spec_escape(t).len() as int] == QUOTE,
    ensures
        spec_scan(s, i) == Some((t, i + spec_escape(t).len() + 1)),
    decreases t.len(),
{
    let e = spec_escape(t);
    if t.len() == 0 {
        assert(s[i] == QUOTE);
    } else {
        let c = t[0];
        let rest = t.drop_first();
        let erest = spec_escape(rest);
        assert(e == esc_char(c) + erest);
        if c == QUOTE || c == BACKSLASH {
            assert(e.len() == 2 + erest.len());
            assert(s[i] == s.subrange(i, i + e.len() as int)[0]);
            assert(s[i + 1] == s.subrange(i, i + e.len() as int)[1]);
            assert(s[i] == BACKSLASH && s[i + 1] == c);
            assert forall|k: int| 0 <= k < erest.len() implies s.subrange(
                i + 2,
                i + 2 + erest.len() as int,
            )[k] == erest[k] by {
                assert(s.subrange(i, i + e.len() as int)[k + 2] == e[k + 2]);
                assert(e[k + 2] == erest[k]);
            }
            assert(s.subrange(i + 2, i + 2 + erest.len() as int) =~= erest);
            assert(s[i + 2 + erest.len() as int] == QUOTE);
            lemma_scan_escape(s, i + 2, rest);
            assert(seq![s[i + 1]] + rest =~= t);
        } else {
            assert(e.len() == 1 + erest.len());
            assert(s[i] == s.subrange(i, i + e.len() as int)[0]);
            assert(s[i] == c);
            assert(c != QUOTE && c != BACKSLASH);
            assert forall|k: int| 0 <= k < erest.len() implies s.subrange(
                i + 1,
                i + 1 + erest.len() as int,
            )[k] == erest[k] by {
                assert(s.subrange(i, i + e.len() as int)[k + 1] == e[k + 1]);
                assert(e[k + 1] == erest[k]);
            }
            assert(s.subrange(i + 1, i + 1 + erest.len() as int) =~= erest);
            assert(s[i + 1 + erest.len() as int] == QUOTE);
            lemma_scan_escape(s, i + 1, rest);
            assert(seq![s[i]] + rest =~= t);
        }
    }
}

/// Whether `b` is an ASCII decimal digit.
pub open spec fn is_digit(b: u8) -> bool {
    48 <= b <= 57
}

/// The decimal digits of a nonnegative number, most significant first.
pub open spec fn spec_dec(n: int) -> Seq<u8>
    recommends
        n >= 0,
    decreases n,
{
    if n < 10 {
        seq![(48 + if n >= 0 {
            n
        } else {
            0
        }) as u8]
    } else {
        spec_dec(n / 10) + seq![(48 + n % 10) as u8]
    }
}

/// Decimal digits are ASCII digits, and never start with a zero unless
/// the number is zero.
pub proof fn lemma_dec_shape(n: int)
    requires
        n >= 0,
    ensures
        spec_dec(n).len() > 0,
        forall|i: int| 0 <= i < spec_dec(n).len() ==> is_digit(#[trigger] spec_dec(n)[i]),
        spec_dec(n)[0] == 48 ==> n == 0,
    decreases n,
{
    if n >= 10 {
        lemma_dec_shape(n / 10);
        assert forall|i: int| 0 <= i < spec_dec(n).len() implies is_digit(
            #[trigger] spec_dec(n)[i],
        ) by {
            if i < spec_dec(n / 10).len() {
                assert(spec_dec(n)[i] == spec_dec(n / 10)[i]);
            }
        }
    }
}

/// The digits of a sequence of digit values, reversed.
pub open spec fn rev_bytes(s: Seq<u8>) -> Seq<u8> {
    Seq::new(s.len(), |i: int| s[s.len() - 1 - i])
}

/// Appends the decimal digits of `n` to `out`.
pub fn append_dec(out: &mut Vec<u8>, n: u64)
    ensures
        final(out)@ == old(out)@ + spec_dec(n as int),
{
    let mut tmp: Vec<u8> = Vec::new();
    let mut m: u64 = n;
    while m >= 10
        invariant
            spec_dec(n as int) == spec_dec(m as int) + rev_bytes(tmp@),
        decreases m,
    {
        let d: u8 = (m % 10) as u8 + 48;
        let ghost before = tmp@;
        tmp.push(d);
        m = m / 10;
        proof {
            assert(rev_bytes(tmp@) =~= seq![d] + rev_bytes(before));
            assert(spec_dec(n as int) =~= spec_dec(m as int) + rev_bytes(tmp@));
        }
    }
    out.push(m as u8 + 48);
    let k: usize = tmp.len();
    let mut j: usize = 0;
    while j < k
        invariant
            k == tmp@.len(),
            0 <= j <= k,
            out@ == old(out)@ + seq![(m as u8 + 48) as u8] + rev_bytes(tmp@).subrange(
                0,
                j as int,
            ),
        decreases k - j,
    {
        let b: u8 = tmp[k - 1 - j];
        out.push(b);
        j = j + 1;
        proof {
            assert(out@ =~= old(out)@ + seq![(m as u8 + 48) as u8] + rev_bytes(tmp@).subrange(
                0,
                j as int,
            ));
        }
    }
    proof {
        assert(rev_bytes(tmp@).subrange(0, k as int) =~= rev_bytes(tmp@));
        assert(spec_dec(m as int) =~= seq![(m as u8 + 48) as u8]);
        assert(out@ =~= old(out)@ + spec_dec(n as int));
    }
}

/// Where the run of decimal digits starting at `i` ends.
pub open spec fn digit_run_end(s: Seq<u8>, i: int) -> int
    decreases s.len() - i,
{
    if i < 0 || i >= s.len() || !is_digit(s[i]) {
        i
    } else {
        digit_run_end(s, i + 1)
    }
}

/// The value of the digits of `s` in `[i, j)`.
pub open spec fn run_val(s: Seq<u8>, i: int, j: int) -> int
    decreases j - i,
{
    if j <= i {
        0
    } else {
        run_val(s, i, j - 1) * 10 + (s[j - 1] - 48)
    }
}

/// The bounds and members of a digit run.
pub proof fn lemma_digit_run(s: Seq<u8>, i: int)
    requires
        0 <= i <= s.len(),
    ensures
        i <= digit_run_end(s, i) <= s.len(),
        forall|k: int| i <= k < digit_run_end(s, i) ==> is_digit(s[k]),
        digit_run_end(s, i) == s.len() || !is_digit(s[digit_run_end(s, i)]),
    decreases s.len() - i,
{
    if i < s.len() && is_digit(s[i]) {
        lemma_digit_run(s, i + 1);
    }
}

/// A longer digit run never has a smaller value.
pub proof fn lemma_run_val_grows(s: Seq<u8>, i: int, j: int, j2: int)
    requires
        i <= j <= j2,
        forall|k: int| i <= k < j2 ==> is_digit(s[k]),
        run_val(s, i, j) >= 0,
    ensures
        run_val(s, i, j2) >= run_val(s, i, j),
        run_val(s, i, j2) >= 0,
    decreases j2 - j,
{
    if j2 > j {
        lemma_run_val_grows(s, i, j, j2 - 1);
    }
}

/// Scanning a decimal number: the digit run at `i`, read as a value.
/// `None` when no digit starts at `i`, when a run longer than one digit
/// starts with zero, or when the value exceeds the 64-bit range.
pub open spec fn spec_scan_u64(s: Seq<u8>, i: int) -> Option<(u64, int)> {
    let j = digit_run_end(s, i);
    if j == i {
        None
    } else if s[i] == 48 && j > i + 1 {
        None
    } else if run_val(s, i, j) > u64::MAX {
        None
    } else {
        Some((run_val(s, i, j) as u64, j))
    }
}

/// Scans a decimal number at `i`, as [`spec_scan_u64`] describes.
pub fn scan_u64(s: &[u8], i: usize) -> (r: Option<(u64, usize)>)
    requires
        i <= s@.len(),
    ensures
        r is Some <==> spec_scan_u64(s@, i as int) is Some,
        r matches Some(v) ==> spec_scan_u64(s@, i as int) == Some((v.0, v.1 as int)),
{
    proof {
        lemma_digit_run(s@, i as int);
    }
    let ghost j = digit_run_end(s@, i as int);
    let n: usize = s.len();
    if i >= n || !(48 <= s[i] && s[i] <= 57) {
        return None;
    }
    if s[i] == 48 {
        // a single zero is the only run that may start with zero
        if i + 1 < n && 48 <= s[i + 1] && s[i + 1] <= 57 {
            proof {
                assert(digit_run_end(s@, i as int) == digit_run_end(s@, i + 1));
                lemma_digit_run(s@, i + 1);
            }
            return None;
        }
        proof {
            assert(j == i + 1);
            assert(run_val(s@, i as int, i as int) == 0);
            assert(run_val(s@, i as int, j) == 0);
        }
        return Some((0, i + 1));
    }
    let mut v: u64 = 0;
    let mut cur: usize = i;
    while cur < n && 48 <= s[cur] && s[cur] <= 57
        invariant
            n == s@.len(),
            i <= cur <= n,
            j == digit_run_end(s@, i as int),
            i <= j <= n,
            forall|k: int| i <= k < j ==> is_digit(s@[k]),
            j == s@.len() || !is_digit(s@[j]),
            cur <= j,
            digit_run_end(s@, cur as int) == j,
            v == run_val(s@, i as int, cur as int),
        decreases n - cur,
    {
        let d: u8 = s[cur] - 48;
        if v > (u64::MAX - d as u64) / 10 {
            proof {
                assert(run_val(s@, i as int, cur + 1) == v * 10 + d);
                assert(v * 10 + d > u64::MAX) by (nonlinear_arith)
                    requires
                        v > (u64::MAX - d as u64) / 10,
                        d < 10,
                ;
                lemma_run_val_grows(s@, i as int, cur + 1, j);
            }
            return None;
        }
        proof {
            assert(v * 10 + d <= u64::MAX) by (nonlinear_arith)
                requires
                    v <= (u64::MAX - d as u64) / 10,
                    d < 10,
            ;
            assert(digit_run_end(s@, cur as int) == digit_run_end(s@, cur + 1));
        }
        v = v * 10 + d as u64;
        cur = cur + 1;
    }
    proof {
        assert(cur == j);
    }
    Some((v, cur))
}

/// Reading back formatted decimal digits recovers the number, and the run
/// ends exactly at the digits' end when a non-digit follows.
pub proof fn lemma_dec_round_trip(s: Seq<u8>, i: int, n: u64)
    requires
        0 <= i,
        i + spec_dec(n as int).len() <= s.len(),
        s.subrange(i, i + spec_dec(n as int).len() as int) == spec_dec(n as int),
        i + spec_dec(n as int).len() == s.len() || !is_digit(
            s[i + spec_dec(n as int).len() as int],
        ),
    ensures
        spec_scan_u64(s, i) == Some((n, i + spec_dec(n as int).len() as int)),
{
    let e = spec_dec(n as int);
    let j = i + e.len() as int;
    lemma_dec_shape(n as int);
    assert forall|k: int| i <= k < j implies is_digit(s[k]) by {
        assert(s.subrange(i, j)[k - i] == s[k]);
        assert(is_digit(e[k - i]));
    }
    lemma_digit_run_exact(s, i, j);
    lemma_run_val_of_dec(s, i, n as int);
    assert(s[i] == e[0]);
    if n == 0 {
        assert(e.len() == 1);
    } else {
        assert(s[i] == 48 ==> e[0] == 48);
    }
}

/// A maximal digit run that ends where the digits end.
proof fn lemma_digit_run_exact(s: Seq<u8>, i: int, j: int)
    requires
        0 <= i <= j <= s.len(),
        forall|k: int| i <= k < j ==> is_digit(s[k]),
        j == s.len() || !is_digit(s[j]),
    ensures
        digit_run_end(s, i) == j,
    decreases j - i,
{
    if i < j {
        lemma_digit_run_exact(s, i + 1, j);
    }
}

/// The value read from the digits of `n` is `n`.
proof fn lemma_run_val_of_dec(s: Seq<u8>, i: int, n: int)
    requires
        n >= 0,
        0 <= i,
        i + spec_dec(n).len() <= s.len(),
        s.subrange(i, i + spec_dec(n).len() as int) == spec_dec(n),
    ensures
        run_val(s, i, i + spec_dec(n).len() as int) == n,
    decreases n,
{
    let e = spec_dec(n);
    let j = i + e.len() as int;
    if n < 10 {
        assert(s.subrange(i, j)[0] == s[i]);
        assert(s[i] == (48 + n) as u8);
        assert(run_val(s, i, j) == run_val(s, i, j - 1) * 10 + (s[j - 1] - 48));
    } else {
        let e1 = spec_dec(n / 10);
        assert(e == e1 + seq![(48 + n % 10) as u8]);
        assert(s.subrange(i, i + e1.len() as int) =~= e1) by {
            assert forall|k: int| 0 <= k < e1.len() implies s.subrange(
                i,
                i + e1.len() as int,
            )[k] == e1[k] by {
                assert(s.subrange(i, j)[k] == e[k]);
            }
        }
        lemma_run_val_of_dec(s, i, n / 10);
        assert(s.subrange(i, j)[e.len() - 1] == e[e.len() - 1]);
        assert(s[j - 1] == (48 + n % 10) as u8);
        assert(run_val(s, i, j) == run_val(s, i, j - 1) * 10 + (s[j - 1] - 48));
    }
}

/// Scans a string value in `s` from `i`, as [`spec_scan`] describes.
pub fn scan_string(s: &[u8], i: usize) -> (r: Option<(Vec<u8>, usize)>)
    ensures
        r is Some <==> spec_scan(s@, i as int) is Some,
        r is Some ==> spec_scan(s@, i as int) == Some(
            (r->Some_0.0@, r->Some_0.1 as int),
        ),
{
    let n: usize = s.len();
    let mut out: Vec<u8> = Vec::new();
    let mut cur: usize = i;
    loop
        invariant
            n == s@.len(),
            i <= cur,
            (spec_scan(s@, i as int) is Some <==> spec_scan(s@, cur as int) is Some),
            spec_scan(s@, cur as int) matches Some(r) ==> spec_scan(s@, i as int) == Some(
                (out@ + r.0, r.1),
            ),
        decreases n - cur,
    {
        if cur >= n {
            return None;
        }
        let b: u8 = s[cur];
        if b == QUOTE {
            proof {
                let r0 = spec_scan(s@, cur as int)->Some_0;
                assert(out@ + r0.0 =~= out@);
            }
            return Some((out, cur + 1));
        } else if b == BACKSLASH {
            if cur + 1 < n && (s[cur + 1] == QUOTE || s[cur + 1] == BACKSLASH) {
                let c: u8 = s[cur + 1];
                let ghost prev_out = out@;
                let ghost prev = cur as int;
                out.push(c);
                cur = cur + 2;
                proof {
                    if spec_scan(s@, cur as int) is Some {
                        let r = spec_scan(s@, cur as int)->Some_0;
                        assert(spec_scan(s@, prev) == Some((seq![s@[prev + 1]] + r.0, r.1)));
                        assert(prev_out + (seq![s@[prev + 1]] + r.0) =~= out@ + r.0);
                    } else {
                        assert(spec_scan(s@, prev) is None);
                    }
                }
            } else {
                proof {
                    assert(spec_scan(s@, cur as int) is None);
                }
                return None;
            }
        } else {
            let ghost prev_out = out@;
            let ghost prev = cur as int;
            out.push(b);
            cur = cur + 1;
            proof {
                if spec_scan(s@, cur as int) is Some {
                    let r = spec_scan(s@, cur as int)->Some_0;
                    assert(spec_scan(s@, prev) == Some((seq![s@[prev]] + r.0, r.1)));
                    assert(prev_out + (seq![s@[prev]] + r.0) =~= out@ + r.0);
                } else {
                    assert(spec_scan(s@, prev) is None);
                }
            }
        }
    }
}

} // verus!

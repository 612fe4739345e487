//! Lexical layer of the payload codec: decimal digit strings, JSON integer
//! and number tokens, and JSON string bodies, all over byte sequences.
//! Every exec function returns exactly what the corresponding spec scanner
//! says; the lemmas at the end let the codec replay a scanner over an
//! encoded record.

use vstd::prelude::*;
use vstd::arithmetic::div_mod::lemma_fundamental_div_mod;

verus! {

// ---------------------------------------------------------------- digits

pub open spec fn is_digit(b: u8) -> bool {
    48 <= b && b <= 57
}

pub open spec fn all_digits(s: Seq<u8>) -> bool {
    forall|k: int| 0 <= k < s.len() ==> is_digit(#[trigger] s[k])
}

/// Numeric value of a string of decimal digit bytes.
pub open spec fn digits_val(s: Seq<u8>) -> nat
    decreases s.len(),
{
    if s.len() == 0 {
        0
    } else {
        digits_val(s.drop_last()) * 10 + (s.last() - 48) as nat
    }
}

/// Decimal representation of a natural number, most significant digit first.
pub open spec fn dec_rep(n: nat) -> Seq<u8>
    decreases n,
{
    if n < 10 {
        seq![(48 + n) as u8]
    } else {
        dec_rep(n / 10).push((48 + n % 10) as u8)
    }
}

/// Decimal representation of an integer, with a leading minus sign when
/// negative.
pub open spec fn int_rep(v: int) -> Seq<u8> {
    if v < 0 {
        seq![45u8] + dec_rep((-v) as nat)
    } else {
        dec_rep(v as nat)
    }
}

/// First position at or after `i` holding a non-digit byte.
pub open spec fn scan_digits(s: Seq<u8>, i: int) -> int
    decreases s.len() - i,
{
    if 0 <= i < s.len() && is_digit(s[i]) {
        scan_digits(s, i + 1)
    } else {
        i
    }
}

pub proof fn lemma_scan_digits(s: Seq<u8>, i: int)
    requires
        0 <= i <= s.len(),
    ensures
        i <= scan_digits(s, i) <= s.len(),
        forall|k: int| i <= k < scan_digits(s, i) ==> is_digit(#[trigger] s[k]),
        scan_digits(s, i) < s.len() ==> !is_digit(s[scan_digits(s, i)]),
    decreases s.len() - i,
{
    if i < s.len() && is_digit(s[i]) {
        lemma_scan_digits(s, i + 1);
    }
}

/// The scanner stops exactly at `j` when everything in `[i, j)` is a digit
/// and `j` is the end of the input or holds a non-digit.
pub proof fn lemma_scan_digits_exact(s: Seq<u8>, i: int, j: int)
    requires
        0 <= i <= j <= s.len(),
        forall|k: int| i <= k < j ==> is_digit(#[trigger] s[k]),
        j < s.len() ==> !is_digit(s[j]),
    ensures
        scan_digits(s, i) == j,
    decreases j - i,
{
    if i < j {
        lemma_scan_digits_exact(s, i + 1, j);
    }
}

// --------------------------------------------------------- integer tokens

/// End position of a JSON integer token starting at `i`: an optional minus
/// sign, then digits without a superfluous leading zero.
pub open spec fn int_end(s: Seq<u8>, i: int) -> Option<int> {
    let j0 = if i < s.len() && s[i] == 45 { i + 1 } else { i };
    let j1 = scan_digits(s, j0);
    if j1 == j0 {
        None
    } else if s[j0] == 48 && j1 > j0 + 1 {
        None
    } else {
        Some(j1)
    }
}

/// Value of the integer token occupying `[i, j)` of `s`.
pub open spec fn int_tok_val(s: Seq<u8>, i: int, j: int) -> int {
    if s[i] == 45 {
        -(digits_val(s.subrange(i + 1, j)) as int)
    } else {
        digits_val(s.subrange(i, j)) as int
    }
}

/// Integer token at `i` whose value lies in `[lo, hi]`, with its end.
pub open spec fn parse_int_s(s: Seq<u8>, i: int, lo: int, hi: int) -> Option<(int, int)> {
    match int_end(s, i) {
        Some(j) => {
            let v = int_tok_val(s, i, j);
            if lo <= v <= hi {
                Some((v, j))
            } else {
                None
            }
        },
        None => None,
    }
}

// ---------------------------------------------------------- number tokens

/// Bytes that could extend a number token to the right.
pub open spec fn num_cont(b: u8) -> bool {
    is_digit(b) || b == 46 || b == 101 || b == 69
}

/// End of the optional fractional part at `i`: a dot must be followed by at
/// least one digit; no dot is fine.
pub open spec fn frac_end(s: Seq<u8>, i: int) -> Option<int> {
    if 0 <= i < s.len() && s[i] == 46 {
        let j = scan_digits(s, i + 1);
        if j == i + 1 {
            None
        } else {
            Some(j)
        }
    } else {
        Some(i)
    }
}

/// End of the optional exponent part at `i`: `e` or `E`, an optional sign,
/// then at least one digit; no exponent is fine.
pub open spec fn exp_end(s: Seq<u8>, i: int) -> Option<int> {
    if 0 <= i < s.len() && (s[i] == 101 || s[i] == 69) {
        let j0 = if i + 1 < s.len() && (s[i + 1] == 43 || s[i + 1] == 45) {
            i + 2
        } else {
            i + 1
        };
        let j = scan_digits(s, j0);
        if j == j0 {
            None
        } else {
            Some(j)
        }
    } else {
        Some(i)
    }
}

/// End position of a JSON number token starting at `i`: an optional minus
/// sign, an integer part without a superfluous leading zero, an optional
/// fractional part and an optional exponent.
pub open spec fn num_end(s: Seq<u8>, i: int) -> Option<int> {
    let j0 = if i < s.len() && s[i] == 45 { i + 1 } else { i };
    let j1 = scan_digits(s, j0);
    if j1 == j0 {
        None
    } else if s[j0] == 48 && j1 > j0 + 1 {
        None
    } else {
        match frac_end(s, j1) {
            Some(j2) => exp_end(s, j2),
            None => None,
        }
    }
}

/// A whole byte string that is one number token.
pub open spec fn num_tok(t: Seq<u8>) -> bool {
    num_end(t, 0) == Some(t.len() as int)
}

// ---------------------------------------------------------- string bodies

/// Bytes allowed verbatim inside a JSON string: no control characters, no
/// quote, no backslash.
pub open spec fn str_char(b: u8) -> bool {
    32 <= b && b != 34 && b != 92
}

pub open spec fn str_ok(s: Seq<u8>) -> bool {
    forall|k: int| 0 <= k < s.len() ==> str_char(#[trigger] s[k])
}

/// First position at or after `i` holding a byte that cannot stand inside a
/// string body.
pub open spec fn scan_str(s: Seq<u8>, i: int) -> int
    decreases s.len() - i,
{
    if 0 <= i < s.len() && str_char(s[i]) {
        scan_str(s, i + 1)
    } else {
        i
    }
}

pub proof fn lemma_scan_str(s: Seq<u8>, i: int)
    requires
        0 <= i <= s.len(),
    ensures
        i <= scan_str(s, i) <= s.len(),
        forall|k: int| i <= k < scan_str(s, i) ==> str_char(#[trigger] s[k]),
        scan_str(s, i) < s.len() ==> !str_char(s[scan_str(s, i)]),
    decreases s.len() - i,
{
    if i < s.len() && str_char(s[i]) {
        lemma_scan_str(s, i + 1);
    }
}

pub proof fn lemma_scan_str_exact(s: Seq<u8>, i: int, j: int)
    requires
        0 <= i <= j <= s.len(),
        forall|k: int| i <= k < j ==> str_char(#[trigger] s[k]),
        j < s.len() ==> !str_char(s[j]),
    ensures
        scan_str(s, i) == j,
    decreases j - i,
{
    if i < j {
        lemma_scan_str_exact(s, i + 1, j);
    }
}

/// Quoted string at `i`: its body and the position after the closing quote.
pub open spec fn str_end(s: Seq<u8>, i: int) -> Option<(Seq<u8>, int)> {
    if 0 <= i < s.len() && s[i] == 34 {
        let j = scan_str(s, i + 1);
        if j < s.len() && s[j] == 34 {
            Some((s.subrange(i + 1, j), j + 1))
        } else {
            None
        }
    } else {
        None
    }
}

/// Serialized form of a string body: quote, body, quote.
pub open spec fn str_rep(d: Seq<u8>) -> Seq<u8> {
    seq![34u8] + d + seq![34u8]
}

// ------------------------------------------------------------- exec scans

pub fn scan_digits_x(s: &Vec<u8>, i: usize) -> (j: usize)
    requires
        i <= s.len(),
    ensures
        j == scan_digits(s@, i as int),
        i <= j <= s.len(),
{
    let mut j: usize = i;
    while j < s.len() && 48 <= s[j] && s[j] <= 57
        invariant
            i <= j <= s.len(),
            scan_digits(s@, i as int) == scan_digits(s@, j as int),
        decreases s.len() - j,
    {
        j = j + 1;
    }
    proof {
        lemma_scan_digits(s@, j as int);
    }
    j
}

pub fn scan_str_x(s: &Vec<u8>, i: usize) -> (j: usize)
    requires
        i <= s.len(),
    ensures
        j == scan_str(s@, i as int),
        i <= j <= s.len(),
{
    let mut j: usize = i;
    while j < s.len() && 32 <= s[j] && s[j] != 34 && s[j] != 92
        invariant
            i <= j <= s.len(),
            scan_str(s@, i as int) == scan_str(s@, j as int),
        decreases s.len() - j,
    {
        j = j + 1;
    }
    proof {
        lemma_scan_str(s@, j as int);
    }
    j
}

proof fn lemma_digits_val_step(s: Seq<u8>, i: int, k: int)
    requires
        0 <= i <= k < s.len(),
    ensures
        digits_val(s.subrange(i, k + 1)) == digits_val(s.subrange(i, k)) * 10 + (s[k] - 48) as nat,
{
    let w = s.subrange(i, k + 1);
    assert(w.drop_last() =~= s.subrange(i, k));
    assert(w.last() == s[k]);
}

/// Parses an integer token whose value must lie in
/// `[-neg_limit, pos_limit]`; the result is exactly what `parse_int_s` says.
pub fn parse_int_x(s: &Vec<u8>, i: usize, neg_limit: u64, pos_limit: u64) -> (r: Option<(i64, usize)>)
    requires
        i <= s.len(),
        neg_limit <= 0x8000_0000_0000_0000u64,
        pos_limit <= 0x7fff_ffff_ffff_ffffu64,
    ensures
        match r {
            Some(p) => {
                &&& parse_int_s(s@, i as int, -(neg_limit as int), pos_limit as int)
                    == Some((p.0 as int, p.1 as int))
                &&& i < p.1 <= s.len()
            },
            None => parse_int_s(s@, i as int, -(neg_limit as int), pos_limit as int) is None,
        },
{
    let neg = i < s.len() && s[i] == 45;
    let j0: usize = if neg { i + 1 } else { i };
    let j: usize = scan_digits_x(s, j0);
    if j == j0 {
        return None;
    }
    if s[j0] == 48 && j > j0 + 1 {
        return None;
    }
    proof {
        lemma_scan_digits(s@, j0 as int);
    }
    let mut k: usize = j0;
    let mut mag: u64 = 0;
    let mut over: bool = false;
    while k < j
        invariant
            j0 <= k <= j <= s.len(),
            scan_digits(s@, j0 as int) == j,
            forall|t: int| j0 <= t < j ==> is_digit(#[trigger] s@[t]),
            !over ==> mag == digits_val(s@.subrange(j0 as int, k as int)),
            over ==> digits_val(s@.subrange(j0 as int, k as int)) > u64::MAX,
        decreases j - k,
    {
        let d: u8 = s[k] - 48;
        proof {
            lemma_digits_val_step(s@, j0 as int, k as int);
        }
        if over || mag > 1844674407370955161u64 || (mag == 1844674407370955161u64 && d > 5) {
            over = true;
        } else {
            mag = mag * 10 + d as u64;
        }
        k = k + 1;
    }
    let v_ok = if over {
        false
    } else if neg {
        mag <= neg_limit
    } else {
        mag <= pos_limit
    };
    if !v_ok {
        return None;
    }
    let v: i64 = if neg {
        if mag == 0x8000_0000_0000_0000u64 {
            i64::MIN
        } else {
            -(mag as i64)
        }
    } else {
        mag as i64
    };
    proof {
        assert(s@.subrange(j0 as int, j as int) == s@.subrange(j0 as int, k as int));
    }
    Some((v, j))
}

// ----------------------------------------------------------- exec output

/// Appends the decimal representation of `n`.
pub fn push_u64_dec(out: &mut Vec<u8>, n: u64)
    ensures
        final(out)@ == old(out)@ + dec_rep(n as nat),
    decreases n,
{
    if n < 10 {
        out.push(48 + n as u8);
        proof {
            assert(out@ =~= old(out)@ + dec_rep(n as nat));
        }
    } else {
        let ghost mid = dec_rep((n / 10) as nat);
        push_u64_dec(out, n / 10);
        out.push(48 + (n % 10) as u8);
        proof {
            assert(out@ =~= old(out)@ + dec_rep(n as nat));
        }
    }
}

/// Appends the decimal representation of `v`, minus sign included.
pub fn push_i64_dec(out: &mut Vec<u8>, v: i64)
    ensures
        final(out)@ == old(out)@ + int_rep(v as int),
{
    if v >= 0 {
        push_u64_dec(out, v as u64);
    } else {
        out.push(45);
        let mag: u64 = if v == i64::MIN {
            0x8000_0000_0000_0000u64
        } else {
            (-v) as u64
        };
        push_u64_dec(out, mag);
        proof {
            assert(out@ =~= old(out)@ + int_rep(v as int));
        }
    }
}

/// Finds the end of the number token at `i`, exactly as `num_end` says.
pub fn num_end_x(s: &Vec<u8>, i: usize) -> (r: Option<usize>)
    requires
        i <= s.len(),
    ensures
        match r {
            Some(j) => num_end(s@, i as int) == Some(j as int) && i < j <= s.len(),
            None => num_end(s@, i as int) is None,
        },
{
    let j0: usize = if i < s.len() && s[i] == 45 {
        i + 1
    } else {
        i
    };
    let j1: usize = scan_digits_x(s, j0);
    if j1 == j0 {
        return None;
    }
    if s[j0] == 48 && j1 > j0 + 1 {
        return None;
    }
    let j2: usize = if j1 < s.len() && s[j1] == 46 {
        let jf: usize = scan_digits_x(s, j1 + 1);
        if jf == j1 + 1 {
            return None;
        }
        jf
    } else {
        j1
    };
    let j3: usize = if j2 < s.len() && (s[j2] == 101 || s[j2] == 69) {
        let k0: usize = if j2 + 1 < s.len() && (s[j2 + 1] == 43 || s[j2 + 1] == 45) {
            j2 + 2
        } else {
            j2 + 1
        };
        let je: usize = scan_digits_x(s, k0);
        if je == k0 {
            return None;
        }
        je
    } else {
        j2
    };
    Some(j3)
}

/// A region the number scanner accepted is, taken by itself, one number
/// token.
pub proof fn lemma_num_tok_sub(s: Seq<u8>, i: int, j: int)
    requires
        0 <= i <= s.len(),
        num_end(s, i) == Some(j),
    ensures
        i < j <= s.len(),
        num_tok(s.subrange(i, j)),
{
    let j0: int = if i < s.len() && s[i] == 45 { i + 1 } else { i };
    let j1: int = scan_digits(s, j0);
    lemma_scan_digits(s, j0);
    let j2: int = match frac_end(s, j1) {
        Some(x) => x,
        None => j1,
    };
    if 0 <= j1 < s.len() && s[j1] == 46 {
        lemma_scan_digits(s, j1 + 1);
    }
    if 0 <= j2 < s.len() && (s[j2] == 101 || s[j2] == 69) {
        let k0s: int = if j2 + 1 < s.len() && (s[j2 + 1] == 43 || s[j2 + 1] == 45) {
            j2 + 2
        } else {
            j2 + 1
        };
        lemma_scan_digits(s, k0s);
    }
    assert(i < j <= s.len());
    let t = s.subrange(i, j);
    assert forall|k: int| 0 <= k < t.len() implies t[k] == s[i + k] by {}
    let tj0: int = if 0 < t.len() && t[0] == 45 { 1 } else { 0 };
    assert(t[0] == s[i]);
    assert(tj0 == j0 - i);
    // the integer digits, replayed inside t
    assert forall|k: int| tj0 <= k < j1 - i implies is_digit(#[trigger] t[k]) by {
        assert(t[k] == s[i + k]);
    }
    lemma_scan_digits_exact(t, tj0, j1 - i);
    // the fractional part, replayed inside t
    if 0 <= j1 < s.len() && s[j1] == 46 && frac_end(s, j1) is Some && j2 > j1 {
        assert(scan_digits(s, j1 + 1) == j2);
        assert(t[j1 - i] == s[j1]);
        assert forall|k: int| j1 - i + 1 <= k < j2 - i implies is_digit(#[trigger] t[k]) by {
            assert(t[k] == s[i + k]);
        }
        if j2 < j {
            assert(t[j2 - i] == s[j2]);
        }
        lemma_scan_digits_exact(t, j1 - i + 1, j2 - i);
        assert(frac_end(t, j1 - i) == Some(j2 - i));
    } else {
        assert(j2 == j1);
        if j1 - i < t.len() {
            assert(t[j1 - i] == s[j1]);
        }
        assert(frac_end(t, j1 - i) == Some(j1 - i));
    }
    // the exponent part, replayed inside t
    if j2 < j {
        assert(t[j2 - i] == s[j2]);
        assert(s[j2] == 101 || s[j2] == 69);
        let k0s: int = if j2 + 1 < s.len() && (s[j2 + 1] == 43 || s[j2 + 1] == 45) {
            j2 + 2
        } else {
            j2 + 1
        };
        assert(scan_digits(s, k0s) == j);
        assert(k0s < j);
        assert(t[j2 - i + 1] == s[j2 + 1]);
        assert forall|k: int| k0s - i <= k < j - i implies is_digit(#[trigger] t[k]) by {
            assert(t[k] == s[i + k]);
        }
        lemma_scan_digits_exact(t, k0s - i, j - i);
        assert(exp_end(t, j2 - i) == Some(j - i));
    } else {
        assert(j2 == j);
        assert(exp_end(t, j - i) == Some(j - i));
    }
    assert(num_end(t, 0) == Some(t.len() as int));
}

/// What the string scanner accepted as a body is made of string characters.
pub proof fn lemma_str_end_props(s: Seq<u8>, i: int, d: Seq<u8>, j: int)
    requires
        0 <= i <= s.len(),
        str_end(s, i) == Some((d, j)),
    ensures
        i + 2 <= j <= s.len(),
        str_ok(d),
        d.len() == j - i - 2,
{
    lemma_scan_str(s, i + 1);
    assert forall|k: int| 0 <= k < d.len() implies str_char(#[trigger] d[k]) by {
        assert(d[k] == s[i + 1 + k]);
    }
}

/// Copies a byte vector.
pub fn copy_bytes(src: &Vec<u8>) -> (r: Vec<u8>)
    ensures
        r@ == src@,
{
    copy_range(src, 0, src.len())
}

/// Copies the bytes of `src` in `[i, j)`.
pub fn copy_range(src: &Vec<u8>, i: usize, j: usize) -> (r: Vec<u8>)
    requires
        i <= j <= src.len(),
    ensures
        r@ == src@.subrange(i as int, j as int),
{
    let mut r: Vec<u8> = Vec::new();
    let mut k: usize = i;
    while k < j
        invariant
            i <= k <= j <= src.len(),
            r@ == src@.subrange(i as int, k as int),
        decreases j - k,
    {
        r.push(src[k]);
        k = k + 1;
        proof {
            assert(r@ =~= src@.subrange(i as int, k as int));
        }
    }
    r
}

/// Concatenation of byte sequences is associative.
pub proof fn lemma_app_assoc(a: Seq<u8>, b: Seq<u8>, c: Seq<u8>)
    ensures
        (a + b) + c == a + (b + c),
{
    assert((a + b) + c =~= a + (b + c));
}

// ---------------------------------------------------- round-trip lemmas

pub proof fn lemma_dec_rep_props(n: nat)
    ensures
        dec_rep(n).len() >= 1,
        all_digits(dec_rep(n)),
        digits_val(dec_rep(n)) == n,
        n >= 1 ==> dec_rep(n)[0] != 48,
        n < 10 ==> dec_rep(n).len() == 1,
    decreases n,
{
    if n < 10 {
        let s = dec_rep(n);
        assert(s.drop_last() =~= Seq::<u8>::empty());
        assert(s.last() == (48 + n) as u8);
        assert(digits_val(s) == digits_val(Seq::<u8>::empty()) * 10 + (s.last() - 48) as nat);
    } else {
        lemma_dec_rep_props(n / 10);
        lemma_fundamental_div_mod(n as int, 10);
        let s = dec_rep(n);
        let p = dec_rep(n / 10);
        assert(s.drop_last() =~= p);
        assert(s.last() == (48 + n % 10) as u8);
        assert(digits_val(s) == digits_val(p) * 10 + (s.last() - 48) as nat);
        assert((s.last() - 48) as nat == n % 10);
        assert(s[0] == p[0]);
    }
}

/// Replaying the integer scanner over `pre + int_rep(v) + post` finds the
/// token exactly, when what follows cannot extend it.
pub proof fn lemma_parse_int_of_rep(pre: Seq<u8>, v: int, post: Seq<u8>, lo: int, hi: int)
    requires
        lo <= v <= hi,
        post.len() >= 1,
        !is_digit(post[0]),
    ensures
        parse_int_s(pre + int_rep(v) + post, pre.len() as int, lo, hi)
            == Some((v, pre.len() + int_rep(v).len() as int)),
{
    let t = int_rep(v);
    let s = pre + t + post;
    let i = pre.len() as int;
    let m: nat = if v < 0 { (-v) as nat } else { v as nat };
    lemma_dec_rep_props(m);
    let d = dec_rep(m);
    let j0: int = if v < 0 { i + 1 } else { i };
    let jend: int = j0 + d.len();
    assert forall|k: int| j0 <= k < jend implies is_digit(#[trigger] s[k]) by {
        assert(s[k] == t[k - i]);
        assert(t[k - i] == d[k - j0]);
    }
    assert(s[jend] == post[0]);
    lemma_scan_digits_exact(s, j0, jend);
    if v < 0 {
        assert(s[i] == t[0]);
        assert(t[0] == 45u8);
        assert(s[j0] == d[0]);
        assert(m >= 1);
        assert(s.subrange(i + 1, jend) =~= d);
    } else {
        assert(s[i] == d[0]);
        assert(s[i] != 45u8);
        assert(s[j0] == d[0]);
        if m >= 10 {
            assert(d[0] != 48);
        }
        assert(s.subrange(i, jend) =~= d);
    }
}

/// Replaying the number scanner over `pre + t + post` ends exactly after
/// `t`, when `t` is a number token and what follows cannot extend it.
pub proof fn lemma_num_end_of_tok(pre: Seq<u8>, t: Seq<u8>, post: Seq<u8>)
    requires
        num_tok(t),
        post.len() >= 1,
        !num_cont(post[0]),
    ensures
        num_end(pre + t + post, pre.len() as int) == Some(pre.len() + t.len() as int),
{
    let s = pre + t + post;
    let i = pre.len() as int;
    let n = t.len() as int;
    assert forall|k: int| 0 <= k < n implies s[i + k] == t[k] by {}
    assert(s[i + n] == post[0]);
    let tj0: int = if 0 < n && t[0] == 45 { 1 } else { 0 };
    let tj1: int = scan_digits(t, tj0);
    lemma_scan_digits(t, tj0);
    assert forall|k: int| i + tj0 <= k < i + tj1 implies is_digit(#[trigger] s[k]) by {
        assert(s[k] == t[k - i]);
    }
    if tj1 < n {
        assert(s[i + tj1] == t[tj1]);
    }
    lemma_scan_digits_exact(s, i + tj0, i + tj1);
    assert(s[i] == t[0]);
    assert(s[i + tj0] == t[tj0]);
    let tj2: int = match frac_end(t, tj1) {
        Some(x) => x,
        None => tj1,
    };
    if 0 <= tj1 < n && t[tj1] == 46 {
        assert(scan_digits(t, tj1 + 1) == tj2);
        lemma_scan_digits(t, tj1 + 1);
        assert forall|k: int| i + tj1 + 1 <= k < i + tj2 implies is_digit(#[trigger] s[k]) by {
            assert(s[k] == t[k - i]);
        }
        if tj2 < n {
            assert(s[i + tj2] == t[tj2]);
        }
        lemma_scan_digits_exact(s, i + tj1 + 1, i + tj2);
        assert(frac_end(s, i + tj1) == Some(i + tj2));
    } else {
        assert(tj2 == tj1);
        if tj1 < n {
            assert(s[i + tj1] == t[tj1]);
        }
        assert(frac_end(s, i + tj1) == Some(i + tj1));
    }
    if tj2 < n {
        assert(t[tj2] == 101 || t[tj2] == 69);
        let tk0: int = if tj2 + 1 < n && (t[tj2 + 1] == 43 || t[tj2 + 1] == 45) {
            tj2 + 2
        } else {
            tj2 + 1
        };
        assert(scan_digits(t, tk0) == n);
        lemma_scan_digits(t, tk0);
        assert(tk0 < n);
        assert(s[i + tj2] == t[tj2]);
        assert(s[i + tj2 + 1] == t[tj2 + 1]);
        assert forall|k: int| i + tk0 <= k < i + n implies is_digit(#[trigger] s[k]) by {
            assert(s[k] == t[k - i]);
        }
        lemma_scan_digits_exact(s, i + tk0, i + n);
        assert(exp_end(s, i + tj2) == Some(i + n));
    } else {
        assert(exp_end(s, i + n) == Some(i + n));
    }
    assert(num_end(s, i) == Some(i + n));
}

/// Position form of `lemma_num_end_of_tok`: a number token sitting at `i`,
/// followed by a byte that cannot extend it, is scanned exactly.
pub proof fn lemma_num_end_at(s: Seq<u8>, i: int, t: Seq<u8>)
    requires
        0 <= i,
        i + t.len() < s.len(),
        num_tok(t),
        s.subrange(i, i + t.len() as int) == t,
        !num_cont(s[i + t.len() as int]),
    ensures
        num_end(s, i) == Some(i + t.len() as int),
{
    let pre = s.subrange(0, i);
    let post = s.subrange(i + t.len() as int, s.len() as int);
    assert(s =~= pre + t + post);
    assert(post[0] == s[i + t.len() as int]);
    lemma_num_end_of_tok(pre, t, post);
}

/// Position form of `lemma_parse_int_of_rep`.
pub proof fn lemma_parse_int_at(s: Seq<u8>, i: int, v: int, lo: int, hi: int)
    requires
        0 <= i,
        i + int_rep(v).len() < s.len(),
        s.subrange(i, i + int_rep(v).len() as int) == int_rep(v),
        !is_digit(s[i + int_rep(v).len() as int]),
        lo <= v <= hi,
    ensures
        parse_int_s(s, i, lo, hi) == Some((v, i + int_rep(v).len() as int)),
{
    let t = int_rep(v);
    let pre = s.subrange(0, i);
    let post = s.subrange(i + t.len() as int, s.len() as int);
    assert(s =~= pre + t + post);
    assert(post[0] == s[i + t.len() as int]);
    lemma_parse_int_of_rep(pre, v, post, lo, hi);
}

/// Position form of `lemma_str_end_of_rep`.
pub proof fn lemma_str_at(s: Seq<u8>, i: int, d: Seq<u8>)
    requires
        0 <= i,
        i + d.len() + 2 <= s.len(),
        str_ok(d),
        s.subrange(i, i + d.len() + 2 as int) == str_rep(d),
    ensures
        str_end(s, i) == Some((d, i + d.len() + 2 as int)),
{
    let pre = s.subrange(0, i);
    let post = s.subrange(i + d.len() + 2 as int, s.len() as int);
    assert(s =~= pre + str_rep(d) + post);
    lemma_str_end_of_rep(pre, d, post);
}

/// Replaying the string scanner over `pre + str_rep(d) + post` recovers `d`.
pub proof fn lemma_str_end_of_rep(pre: Seq<u8>, d: Seq<u8>, post: Seq<u8>)
    requires
        str_ok(d),
    ensures
        str_end(pre + str_rep(d) + post, pre.len() as int)
            == Some((d, pre.len() + d.len() + 2 as int)),
{
    let s = pre + str_rep(d) + post;
    let i = pre.len() as int;
    let r = str_rep(d);
    assert(s[i] == r[0]);
    let close: int = i + 1 + d.len();
    assert forall|k: int| i + 1 <= k < close implies str_char(#[trigger] s[k]) by {
        assert(s[k] == r[k - i]);
        assert(r[k - i] == d[k - i - 1]);
    }
    assert(s[close] == r[close - i]);
    assert(r[close - i] == 34u8);
    lemma_scan_str_exact(s, i + 1, close);
    assert(s.subrange(i + 1, close) =~= d);
}

} // verus!

//! String helpers: equality, substring search, trimming, and decimal
//! conversion, each specified over `Seq<char>` views.

use vstd::prelude::*;
use vstd::string::StrSliceExecFns;

verus! {

/// The characters stripped by condition trimming.
pub open spec fn is_space_char(c: char) -> bool {
    c == ' ' || c == '\t' || c == '\n' || c == '\r'
}

/// Whether `pat` occurs in `s` starting at position `i`.
pub open spec fn occurs_at(s: Seq<char>, pat: Seq<char>, i: int) -> bool {
    0 <= i && i + pat.len() <= s.len() && s.subrange(i, i + pat.len() as int) == pat
}

/// Position of the first occurrence of `pat` in `s` at or after `i`.
pub open spec fn find_from(s: Seq<char>, pat: Seq<char>, i: int) -> Option<int>
    decreases s.len() - i + 1,
{
    if i < 0 || i + pat.len() > s.len() {
        None
    } else if occurs_at(s, pat, i) {
        Some(i)
    } else {
        find_from(s, pat, i + 1)
    }
}

/// `s` with leading space characters removed.
pub open spec fn trim_front(s: Seq<char>) -> Seq<char>
    decreases s.len(),
{
    if s.len() > 0 && is_space_char(s[0]) {
        trim_front(s.drop_first())
    } else {
        s
    }
}

/// `s` with trailing space characters removed.
pub open spec fn trim_back(s: Seq<char>) -> Seq<char>
    decreases s.len(),
{
    if s.len() > 0 && is_space_char(s.last()) {
        trim_back(s.drop_last())
    } else {
        s
    }
}

/// `s` with both leading and trailing space characters removed.
pub open spec fn trimmed(s: Seq<char>) -> Seq<char> {
    trim_back(trim_front(s))
}

/// String equality on views.
pub fn str_eq(a: &str, b: &str) -> (r: bool)
    ensures
        r == (a@ == b@),
{
    let alen = a.unicode_len();
    let blen = b.unicode_len();
    if alen != blen {
        assert(a@.len() != b@.len());
        return false;
    }
    let mut i: usize = 0;
    while i < alen
        invariant
            alen == a@.len(),
            blen == b@.len(),
            alen == blen,
            0 <= i <= alen,
            forall|j: int| 0 <= j < i ==> a@[j] == b@[j],
        decreases alen - i,
    {
        if a.get_char(i) != b.get_char(i) {
            assert(a@ != b@);
            return false;
        }
        i += 1;
    }
    proof {
        assert(a@ =~= b@);
    }
    true
}

/// Whether `pat` occurs in `s` at position `i`.
fn match_at(s: &str, pat: &str, i: usize, slen: usize, plen: usize) -> (r: bool)
    requires
        slen == s@.len(),
        plen == pat@.len(),
        i + plen <= slen,
    ensures
        r == occurs_at(s@, pat@, i as int),
{
    let mut j: usize = 0;
    while j < plen
        invariant
            slen == s@.len(),
            plen == pat@.len(),
            i + plen <= slen,
            0 <= j <= plen,
            forall|k: int| 0 <= k < j ==> s@[i + k] == pat@[k],
        decreases plen - j,
    {
        if s.get_char(i + j) != pat.get_char(j) {
            assert(s@.subrange(i as int, i + plen) != pat@) by {
                assert(s@.subrange(i as int, i + plen)[j as int] == s@[i + j]);
            }
            return false;
        }
        j += 1;
    }
    proof {
        assert(s@.subrange(i as int, i + plen) =~= pat@);
    }
    true
}

proof fn lemma_find_step(s: Seq<char>, pat: Seq<char>, i: int)
    requires
        0 <= i,
        i + pat.len() <= s.len(),
        !occurs_at(s, pat, i),
    ensures
        find_from(s, pat, i) == find_from(s, pat, i + 1),
{
}

pub proof fn lemma_find_from_some(s: Seq<char>, pat: Seq<char>, i: int, j: int)
    requires
        0 <= i,
        find_from(s, pat, i) == Some(j),
    ensures
        i <= j,
        occurs_at(s, pat, j),
    decreases s.len() - i + 1,
{
    if !(i + pat.len() > s.len()) && !occurs_at(s, pat, i) {
        lemma_find_from_some(s, pat, i + 1, j);
    }
}

/// Position of the first occurrence of `pat` in `s`, if any.
pub fn find_sub(s: &str, pat: &str) -> (r: Option<usize>)
    ensures
        match r {
            Some(i) => find_from(s@, pat@, 0) == Some(i as int),
            None => find_from(s@, pat@, 0) is None,
        },
{
    let slen = s.unicode_len();
    let plen = pat.unicode_len();
    if plen > slen {
        return None;
    }
    let end = slen - plen;
    let mut i: usize = 0;
    loop
        invariant
            slen == s@.len(),
            plen == pat@.len(),
            plen <= slen,
            end == slen - plen,
            0 <= i <= end,
            find_from(s@, pat@, 0) == find_from(s@, pat@, i as int),
        decreases end - i,
    {
        if match_at(s, pat, i, slen, plen) {
            return Some(i);
        }
        proof {
            lemma_find_step(s@, pat@, i as int);
        }
        if i == end {
            assert(find_from(s@, pat@, end + 1) is None);
            return None;
        }
        i += 1;
    }
}

proof fn lemma_trim_front_subrange(s: Seq<char>, k: int)
    requires
        0 <= k <= s.len(),
        forall|i: int| 0 <= i < k ==> is_space_char(s[i]),
        k < s.len() ==> !is_space_char(s[k]),
    ensures
        trim_front(s) == s.subrange(k, s.len() as int),
    decreases k,
{
    if k == 0 {
        assert(s.subrange(0, s.len() as int) =~= s);
    } else {
        let t = s.drop_first();
        assert(forall|i: int| 0 <= i < k - 1 ==> t[i] == s[i + 1]);
        lemma_trim_front_subrange(t, k - 1);
        assert(t.subrange(k - 1, t.len() as int) =~= s.subrange(k, s.len() as int));
    }
}

pub proof fn lemma_trim_back_subrange(s: Seq<char>, k: int)
    requires
        0 <= k <= s.len(),
        forall|i: int| k <= i < s.len() ==> is_space_char(s[i]),
        k > 0 ==> !is_space_char(s[k - 1]),
    ensures
        trim_back(s) == s.subrange(0, k),
    decreases s.len() - k,
{
    if k == s.len() {
        assert(s.subrange(0, k) =~= s);
    } else {
        let t = s.drop_last();
        lemma_trim_back_subrange(t, k);
        assert(t.subrange(0, k) =~= s.subrange(0, k));
    }
}

/// Position of the first occurrence of `c` in `s` at or after `i`.
pub open spec fn find_char(s: Seq<char>, c: char, i: int) -> Option<int>
    decreases s.len() - i,
{
    if i < 0 || i >= s.len() {
        None
    } else if s[i] == c {
        Some(i)
    } else {
        find_char(s, c, i + 1)
    }
}

pub proof fn lemma_find_char_some(s: Seq<char>, c: char, i: int, j: int)
    requires
        0 <= i,
        find_char(s, c, i) == Some(j),
    ensures
        i <= j < s.len(),
        s[j] == c,
    decreases s.len() - i,
{
    if i < s.len() && s[i] != c {
        lemma_find_char_some(s, c, i + 1, j);
    }
}

/// Position of the first occurrence of `c` in `s`, if any.
pub fn find_char_in(s: &str, c: char) -> (r: Option<usize>)
    ensures
        match r {
            Some(i) => find_char(s@, c, 0) == Some(i as int),
            None => find_char(s@, c, 0) is None,
        },
{
    let len = s.unicode_len();
    let mut i: usize = 0;
    while i < len
        invariant
            len == s@.len(),
            0 <= i <= len,
            find_char(s@, c, 0) == find_char(s@, c, i as int),
        decreases len - i,
    {
        if s.get_char(i) == c {
            return Some(i);
        }
        i += 1;
    }
    None
}

/// Whether `c` is a decimal digit.
pub open spec fn is_digit_char(c: char) -> bool {
    48 <= c as u32 <= 57
}

/// Numeric value of a decimal digit character.
pub open spec fn digit_val(c: char) -> int {
    c as u32 - 48
}

/// Whether every character of `s` is a decimal digit.
pub open spec fn all_digits(s: Seq<char>) -> bool {
    forall|i: int| 0 <= i < s.len() ==> is_digit_char(s[i])
}

/// The number denoted by a sequence of decimal digits (empty denotes 0).
pub open spec fn digits_val(s: Seq<char>) -> int
    decreases s.len(),
{
    if s.len() == 0 {
        0
    } else {
        digits_val(s.drop_last()) * 10 + digit_val(s.last())
    }
}

/// Ten to the `n`.
pub open spec fn pow10(n: int) -> int
    decreases n,
{
    if n <= 0 {
        1
    } else {
        10 * pow10(n - 1)
    }
}

pub proof fn lemma_pow10_vals()
    ensures
        pow10(0) == 1,
        pow10(1) == 10,
        pow10(2) == 100,
        pow10(3) == 1000,
        pow10(15) == 1000000000000000,
{
    assert(pow10(0) == 1);
    assert(pow10(1) == 10);
    assert(pow10(2) == 100);
    assert(pow10(3) == 1000);
    assert(pow10(4) == 10000);
    assert(pow10(5) == 100000);
    assert(pow10(6) == 1000000);
    assert(pow10(7) == 10000000);
    assert(pow10(8) == 100000000);
    assert(pow10(9) == 1000000000);
    assert(pow10(10) == 10000000000);
    assert(pow10(11) == 100000000000);
    assert(pow10(12) == 1000000000000);
    assert(pow10(13) == 10000000000000);
    assert(pow10(14) == 100000000000000);
    assert(pow10(15) == 1000000000000000);
}

pub proof fn lemma_pow10_mono(a: int, b: int)
    requires
        a <= b,
    ensures
        1 <= pow10(a) <= pow10(b),
    decreases b - a,
{
    if a < b {
        lemma_pow10_mono(a, b - 1);
    } else {
        lemma_pow10_pos(a);
    }
}

pub proof fn lemma_pow10_pos(a: int)
    ensures
        pow10(a) >= 1,
    decreases a,
{
    if a > 0 {
        lemma_pow10_pos(a - 1);
    }
}

pub proof fn lemma_digits_val_bound(s: Seq<char>)
    requires
        all_digits(s),
    ensures
        0 <= digits_val(s) < pow10(s.len() as int),
    decreases s.len(),
{
    if s.len() > 0 {
        assert(all_digits(s.drop_last())) by {
            assert(forall|i: int|
                0 <= i < s.len() - 1 ==> s.drop_last()[i] == s[i]);
        }
        lemma_digits_val_bound(s.drop_last());
        assert(is_digit_char(s.last()));
    }
}

/// The value, in thousandths, denoted by the fractional digits `s`:
/// only the first three digits count.
pub open spec fn frac_milli(s: Seq<char>) -> int {
    if s.len() >= 3 {
        digits_val(s.subrange(0, 3))
    } else {
        digits_val(s) * pow10(3 - s.len() as int)
    }
}

/// The number denoted by a signed decimal literal, scaled by 1000 and
/// truncated to whole thousandths.  A literal is an optional sign, then
/// digits with at most one point; an integer part longer than 15 digits
/// is rejected, and a point must be followed by at least one digit.
pub open spec fn spec_parse_milli(s: Seq<char>) -> Option<int> {
    let neg = s.len() > 0 && s[0] == '-';
    let body = if s.len() > 0 && (s[0] == '-' || s[0] == '+') {
        s.drop_first()
    } else {
        s
    };
    match find_char(body, '.', 0) {
        None => if 1 <= body.len() <= 15 && all_digits(body) {
            Some(if neg { -digits_val(body) * 1000 } else { digits_val(body) * 1000 })
        } else {
            None
        },
        Some(d) => {
            let ip = body.subrange(0, d);
            let fp = body.subrange(d + 1, body.len() as int);
            if ip.len() <= 15 && all_digits(ip) && fp.len() >= 1 && all_digits(fp) {
                let m = digits_val(ip) * 1000 + frac_milli(fp);
                Some(if neg { -m } else { m })
            } else {
                None
            }
        },
    }
}

/// Parses the digit run `s[from..to]`, or `None` on a non-digit.
fn digits_value(s: &str, from: usize, to: usize, len: usize) -> (r: Option<u64>)
    requires
        len == s@.len(),
        from <= to <= len,
        to - from <= 15,
    ensures
        match r {
            Some(v) => all_digits(s@.subrange(from as int, to as int)) && v
                == digits_val(s@.subrange(from as int, to as int)) && v
                < 1000000000000000,
            None => !all_digits(s@.subrange(from as int, to as int)),
        },
{
    let ghost whole = s@.subrange(from as int, to as int);
    let mut acc: u64 = 0;
    let mut i: usize = from;
    proof {
        lemma_pow10_mono(0, 15);
    }
    while i < to
        invariant
            len == s@.len(),
            from <= i <= to <= len,
            to - from <= 15,
            whole == s@.subrange(from as int, to as int),
            all_digits(s@.subrange(from as int, i as int)),
            acc == digits_val(s@.subrange(from as int, i as int)),
            acc < pow10((i - from) as int),
            pow10((i - from) as int) <= pow10(15),
        decreases to - i,
    {
        let c = s.get_char(i);
        let cv = c as u32;
        if cv < 48 || cv > 57 {
            proof {
                assert(whole[i - from] == s@[i as int]);
            }
            return None;
        }
        let d = (cv - 48) as u64;
        proof {
            let p = s@.subrange(from as int, i as int);
            let q = s@.subrange(from as int, i + 1);
            assert(q.drop_last() =~= p);
            assert(q.last() == s@[i as int]);
            assert(forall|j: int| 0 <= j < q.len() ==> q[j] == s@[from + j]);
            assert(pow10((i + 1 - from) as int) == 10 * pow10((i - from) as int));
            lemma_pow10_mono((i + 1 - from) as int, 15);
            lemma_pow10_vals();
        }
        acc = acc * 10 + d;
        i += 1;
    }
    proof {
        lemma_pow10_vals();
    }
    Some(acc)
}

/// Parses a signed decimal literal into thousandths, as
/// `spec_parse_milli` describes.
#[verifier::loop_isolation(false)]
pub fn parse_milli(s: &str) -> (r: Option<i64>)
    ensures
        match r {
            Some(v) => spec_parse_milli(s@) == Some(v as int),
            None => spec_parse_milli(s@) is None,
        },
{
    let len = s.unicode_len();
    let neg = len > 0 && s.get_char(0) == '-';
    let body = if len > 0 && (s.get_char(0) == '-' || s.get_char(0) == '+') {
        let b = s.substring_char(1, len);
        proof {
            assert(b@ =~= s@.drop_first());
        }
        b
    } else {
        s
    };
    let blen = body.unicode_len();
    let dot = find_char_in(body, '.');
    match dot {
        None => {
            if blen < 1 || blen > 15 {
                return None;
            }
            proof {
                assert(body@.subrange(0, blen as int) =~= body@);
            }
            match digits_value(body, 0, blen, blen) {
                Some(v) => {
                    proof {
                        lemma_digits_val_bound(body@);
                        lemma_pow10_vals();
                    }
                    let m = (v * 1000) as i64;
                    if neg {
                        Some(-m)
                    } else {
                        Some(m)
                    }
                },
                None => None,
            }
        },
        Some(d) => {
            proof {
                lemma_find_char_some(body@, '.', 0, d as int);
            }
            let ghost ip = body@.subrange(0, d as int);
            let ghost fp = body@.subrange(d as int + 1, body@.len() as int);
            if d > 15 {
                proof {
                    assert(ip.len() > 15);
                }
                return None;
            }
            if d + 1 >= blen {
                proof {
                    assert(fp.len() < 1);
                }
                return None;
            }
            let ipv = match digits_value(body, 0, d, blen) {
                Some(v) => v,
                None => {
                    return None;
                },
            };
            // every fractional digit must be a digit, not only the first three
            let mut i: usize = d + 1;
            while i < blen
                invariant
                    blen == body@.len(),
                    d + 1 <= i <= blen,
                    d < blen,
                    fp == body@.subrange(d as int + 1, blen as int),
                    all_digits(body@.subrange(d as int + 1, i as int)),
                decreases blen - i,
            {
                let cv = body.get_char(i) as u32;
                if cv < 48 || cv > 57 {
                    proof {
                        assert(fp[i - (d + 1)] == body@[i as int]);
                        assert(!is_digit_char(fp[i - (d + 1)]));
                        assert(!all_digits(fp));
                    }
                    return None;
                }
                proof {
                    let q = body@.subrange(d as int + 1, i + 1);
                    assert(forall|j: int| 0 <= j < q.len() ==> q[j] == body@[d + 1 + j]);
                }
                i += 1;
            }
            proof {
                assert(body@.subrange(d as int + 1, blen as int) =~= fp);
            }
            let fend = if d + 1 + 3 <= blen {
                d + 4
            } else {
                blen
            };
            let fraw = match digits_value(body, d + 1, fend, blen) {
                Some(v) => v,
                None => {
                    proof {
                        let sub = body@.subrange(d as int + 1, fend as int);
                        assert(forall|j: int| 0 <= j < sub.len() ==> sub[j] == fp[j]);
                    }
                    return None;
                },
            };
            let flen = fend - (d + 1);
            let fm: u64 = if flen == 3 {
                proof {
                    assert(body@.subrange(d as int + 1, fend as int) =~= fp.subrange(0, 3));
                }
                fraw
            } else {
                proof {
                    assert(body@.subrange(d as int + 1, fend as int) =~= fp);
                    lemma_digits_val_bound(fp);
                    lemma_pow10_vals();
                    assert(pow10(fp.len() as int) <= 100);
                }
                if flen == 1 {
                    fraw * 100
                } else {
                    fraw * 10
                }
            };
            proof {
                lemma_digits_val_bound(ip);
                lemma_pow10_vals();
                if fp.len() >= 3 {
                    lemma_digits_val_bound(fp.subrange(0, 3));
                    lemma_pow10_vals();
                } else {
                    lemma_digits_val_bound(fp);
                    assert(pow10(fp.len() as int) <= 100);
                    assert(pow10(3 - fp.len() as int) <= 100);
                }
            }
            let m = (ipv * 1000 + fm) as i64;
            if neg {
                Some(-m)
            } else {
                Some(m)
            }
        },
    }
}

/// The character for the decimal digit `d`.
pub open spec fn dec_char(d: int) -> char {
    if d == 0 { '0' }
    else if d == 1 { '1' }
    else if d == 2 { '2' }
    else if d == 3 { '3' }
    else if d == 4 { '4' }
    else if d == 5 { '5' }
    else if d == 6 { '6' }
    else if d == 7 { '7' }
    else if d == 8 { '8' }
    else { '9' }
}

/// The decimal representation of `n >= 0`, without leading zeros.
pub open spec fn dec_rep(n: int) -> Seq<char>
    decreases n,
{
    if n < 10 {
        seq![dec_char(n)]
    } else {
        dec_rep(n / 10).push(dec_char(n % 10))
    }
}

fn digit_str(d: u64) -> (s: &'static str)
    requires
        d < 10,
    ensures
        s@ == seq![dec_char(d as int)],
{
    if d == 0 { proof { reveal_strlit("0"); assert("0"@ =~= seq![dec_char(0)]); } "0" }
    else if d == 1 { proof { reveal_strlit("1"); assert("1"@ =~= seq![dec_char(1)]); } "1" }
    else if d == 2 { proof { reveal_strlit("2"); assert("2"@ =~= seq![dec_char(2)]); } "2" }
    else if d == 3 { proof { reveal_strlit("3"); assert("3"@ =~= seq![dec_char(3)]); } "3" }
    else if d == 4 { proof { reveal_strlit("4"); assert("4"@ =~= seq![dec_char(4)]); } "4" }
    else if d == 5 { proof { reveal_strlit("5"); assert("5"@ =~= seq![dec_char(5)]); } "5" }
    else if d == 6 { proof { reveal_strlit("6"); assert("6"@ =~= seq![dec_char(6)]); } "6" }
    else if d == 7 { proof { reveal_strlit("7"); assert("7"@ =~= seq![dec_char(7)]); } "7" }
    else if d == 8 { proof { reveal_strlit("8"); assert("8"@ =~= seq![dec_char(8)]); } "8" }
    else { proof { reveal_strlit("9"); assert("9"@ =~= seq![dec_char(9)]); } "9" }
}

/// Formats `n` in decimal.
pub fn u64_to_string(n: u64) -> (s: String)
    ensures
        s@ == dec_rep(n as int),
    decreases n,
{
    if n < 10 {
        String::from_str(digit_str(n))
    } else {
        let mut s = u64_to_string(n / 10);
        s.append(digit_str(n % 10));
        proof {
            assert(dec_rep((n / 10) as int) + seq![dec_char((n % 10) as int)] =~= dec_rep(
                (n / 10) as int,
            ).push(dec_char((n % 10) as int)));
        }
        s
    }
}

fn is_space(c: char) -> (r: bool)
    ensures
        r == is_space_char(c),
{
    c == ' ' || c == '\t' || c == '\n' || c == '\r'
}

/// `s` with leading and trailing space characters removed.
pub fn trim_str<'a>(s: &'a str) -> (r: &'a str)
    ensures
        r@ == trimmed(s@),
{
    let len = s.unicode_len();
    let mut a: usize = 0;
    while a < len && is_space(s.get_char(a))
        invariant
            len == s@.len(),
            0 <= a <= len,
            forall|i: int| 0 <= i < a ==> is_space_char(s@[i]),
        decreases len - a,
    {
        a += 1;
    }
    if a == len {
        proof {
            lemma_trim_front_subrange(s@, len as int);
            assert(s@.subrange(len as int, len as int) =~= Seq::<char>::empty());
            assert(trim_back(Seq::<char>::empty()) == Seq::<char>::empty());
            reveal_strlit("");
            assert(""@ =~= Seq::<char>::empty());
        }
        return "";
    }
    let mut b: usize = len;
    while b > a && is_space(s.get_char(b - 1))
        invariant
            len == s@.len(),
            0 <= a < len,
            a <= b <= len,
            forall|i: int| 0 <= i < a ==> is_space_char(s@[i]),
            !is_space_char(s@[a as int]),
            forall|i: int| b <= i < len ==> is_space_char(s@[i]),
        decreases b,
    {
        b -= 1;
    }
    let r = s.substring_char(a, b);
    proof {
        lemma_trim_front_subrange(s@, a as int);
        let f = s@.subrange(a as int, len as int);
        lemma_trim_back_subrange(f, (b - a) as int);
        assert(f.subrange(0, (b - a) as int) =~= s@.subrange(a as int, b as int));
    }
    r
}


/// ASCII lower-casing of one character.
pub open spec fn lower_char(c: char) -> char {
    if 65 <= c as u32 <= 90 {
        ((c as u32 + 32) as u8) as char
    } else {
        c
    }
}

/// ASCII lower-casing of a character sequence.
pub open spec fn lower_seq(s: Seq<char>) -> Seq<char> {
    s.map_values(|c: char| lower_char(c))
}

pub fn lower_char_exec(c: char) -> (r: char)
    ensures
        r == lower_char(c),
{
    let cv = c as u32;
    if 65 <= cv && cv <= 90 {
        ((cv + 32) as u8) as char
    } else {
        c
    }
}

/// Case-insensitive string equality, folding ASCII letters only.
pub fn eq_ignore_ascii(a: &str, b: &str) -> (r: bool)
    ensures
        r == (lower_seq(a@) == lower_seq(b@)),
{
    let alen = a.unicode_len();
    let blen = b.unicode_len();
    if alen != blen {
        assert(lower_seq(a@).len() != lower_seq(b@).len());
        return false;
    }
    let mut i: usize = 0;
    while i < alen
        invariant
            alen == a@.len(),
            blen == b@.len(),
            alen == blen,
            0 <= i <= alen,
            forall|j: int| 0 <= j < i ==> lower_char(a@[j]) == lower_char(b@[j]),
        decreases alen - i,
    {
        if lower_char_exec(a.get_char(i)) != lower_char_exec(b.get_char(i)) {
            assert(lower_seq(a@)[i as int] != lower_seq(b@)[i as int]);
            return false;
        }
        i += 1;
    }
    proof {
        assert(lower_seq(a@) =~= lower_seq(b@));
    }
    true
}


/// Strict lexicographic order on character sequences, by code point.
pub open spec fn lex_lt(a: Seq<char>, b: Seq<char>) -> bool
    decreases a.len(),
{
    if b.len() == 0 {
        false
    } else if a.len() == 0 {
        true
    } else if (a[0] as u32) < (b[0] as u32) {
        true
    } else if a[0] != b[0] {
        false
    } else {
        lex_lt(a.drop_first(), b.drop_first())
    }
}

/// Lexicographic comparison of two strings.
#[verifier::loop_isolation(false)]
pub fn str_lt(a: &str, b: &str) -> (r: bool)
    ensures
        r == lex_lt(a@, b@),
{
    let alen = a.unicode_len();
    let blen = b.unicode_len();
    let mut i: usize = 0;
    proof {
        assert(a@.subrange(0, alen as int) =~= a@);
        assert(b@.subrange(0, blen as int) =~= b@);
    }
    while i < alen && i < blen
        invariant
            alen == a@.len(),
            blen == b@.len(),
            0 <= i <= alen,
            0 <= i <= blen,
            lex_lt(a@, b@) == lex_lt(
                a@.subrange(i as int, alen as int),
                b@.subrange(i as int, blen as int),
            ),
        decreases alen - i,
    {
        let ca = a.get_char(i);
        let cb = b.get_char(i);
        proof {
            let ra = a@.subrange(i as int, alen as int);
            let rb = b@.subrange(i as int, blen as int);
            assert(ra[0] == a@[i as int]);
            assert(rb[0] == b@[i as int]);
            assert(ra.drop_first() =~= a@.subrange(i + 1, alen as int));
            assert(rb.drop_first() =~= b@.subrange(i + 1, blen as int));
        }
        if (ca as u32) < (cb as u32) {
            return true;
        }
        if ca != cb {
            return false;
        }
        i += 1;
    }
    proof {
        if i >= alen {
            assert(a@.subrange(i as int, alen as int) =~= Seq::<char>::empty());
        }
        if i >= blen {
            assert(b@.subrange(i as int, blen as int) =~= Seq::<char>::empty());
        }
    }
    alen < blen
}

/// Whether `suf` is a suffix of `s`.
pub open spec fn ends_with(s: Seq<char>, suf: Seq<char>) -> bool {
    s.len() >= suf.len() && s.subrange(s.len() - suf.len(), s.len() as int) == suf
}

/// Whether the ASCII-lowered `s` ends with `suf` (itself lower case).
#[verifier::loop_isolation(false)]
pub fn ends_with_lower(s: &str, suf: &str) -> (r: bool)
    ensures
        r == ends_with(lower_seq(s@), suf@),
{
    let slen = s.unicode_len();
    let plen = suf.unicode_len();
    if plen > slen {
        assert(lower_seq(s@).len() < suf@.len());
        return false;
    }
    let off = slen - plen;
    let mut j: usize = 0;
    while j < plen
        invariant
            slen == s@.len(),
            plen == suf@.len(),
            plen <= slen,
            off == slen - plen,
            0 <= j <= plen,
            forall|q: int| 0 <= q < j ==> lower_char(s@[off + q]) == suf@[q],
        decreases plen - j,
    {
        if lower_char_exec(s.get_char(off + j)) != suf.get_char(j) {
            assert(lower_seq(s@).subrange(slen - plen, slen as int) != suf@) by {
                assert(lower_seq(s@).subrange(slen - plen, slen as int)[j as int] == lower_char(
                    s@[off + j],
                ));
            }
            return false;
        }
        j += 1;
    }
    proof {
        assert(lower_seq(s@).subrange(slen - plen, slen as int) =~= suf@);
    }
    true
}

/// Whether the ASCII-lowered `s` holds `pat` (itself lower case)
/// anywhere.
#[verifier::loop_isolation(false)]
pub fn contains_lower(s: &str, pat: &str) -> (r: bool)
    ensures
        r == (find_from(lower_seq(s@), pat@, 0) is Some),
{
    let slen = s.unicode_len();
    let plen = pat.unicode_len();
    if plen > slen {
        return false;
    }
    let end = slen - plen;
    let mut i: usize = 0;
    loop
        invariant
            slen == s@.len(),
            plen == pat@.len(),
            plen <= slen,
            end == slen - plen,
            0 <= i <= end,
            find_from(lower_seq(s@), pat@, 0) == find_from(lower_seq(s@), pat@, i as int),
        decreases end - i,
    {
        let mut j: usize = 0;
        let mut hit = true;
        while j < plen
            invariant
                slen == s@.len(),
                plen == pat@.len(),
                i + plen <= slen,
                0 <= j <= plen,
                hit ==> forall|q: int| 0 <= q < j ==> lower_char(s@[i + q]) == pat@[q],
                !hit ==> !occurs_at(lower_seq(s@), pat@, i as int),
            decreases plen - j,
        {
            if lower_char_exec(s.get_char(i + j)) != pat.get_char(j) {
                proof {
                    assert(lower_seq(s@).subrange(i as int, i + plen) != pat@) by {
                        assert(lower_seq(s@).subrange(i as int, i + plen)[j as int] == lower_char(
                            s@[i + j],
                        ));
                    }
                }
                hit = false;
            }
            j += 1;
        }
        if hit {
            proof {
                assert(lower_seq(s@).subrange(i as int, i + plen) =~= pat@);
                assert(occurs_at(lower_seq(s@), pat@, i as int));
            }
            return true;
        }
        proof {
            lemma_find_step(lower_seq(s@), pat@, i as int);
        }
        if i == end {
            assert(find_from(lower_seq(s@), pat@, end + 1) is None);
            return false;
        }
        i += 1;
    }
}


pub proof fn lemma_find_from_none(s: Seq<char>, pat: Seq<char>, i: int)
    requires
        0 <= i,
        forall|j: int| !occurs_at(s, pat, j),
    ensures
        find_from(s, pat, i) is None,
    decreases s.len() - i + 1,
{
    if !(i + pat.len() > s.len()) {
        lemma_find_from_none(s, pat, i + 1);
    }
}

pub proof fn lemma_find_from_at(s: Seq<char>, pat: Seq<char>, p: int)
    requires
        occurs_at(s, pat, p),
        forall|j: int| 0 <= j < p ==> !occurs_at(s, pat, j),
    ensures
        find_from(s, pat, 0) == Some(p),
{
    lemma_find_from_at_rec(s, pat, p, 0);
}

proof fn lemma_find_from_at_rec(s: Seq<char>, pat: Seq<char>, p: int, i: int)
    requires
        0 <= i <= p,
        occurs_at(s, pat, p),
        forall|j: int| 0 <= j < p ==> !occurs_at(s, pat, j),
    ensures
        find_from(s, pat, i) == Some(p),
    decreases p - i,
{
    if i < p {
        lemma_find_from_at_rec(s, pat, p, i + 1);
    }
}

} // verus!

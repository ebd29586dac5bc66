//! Byte-level helpers for the HTTP/1.x wire format: line scanning, trailing
//! whitespace, decimal numbers, and the bridge between bytes and text.
use vstd::prelude::*;
use vstd::utf8::decode_utf8;
use vstd::utf8::encode_utf8;
use vstd::utf8::encode_utf8_decode_utf8;
use vstd::utf8::encode_utf8_valid_utf8;
use vstd::utf8::is_ascii_chars;
use vstd::utf8::is_ascii_chars_encode_utf8;
use vstd::utf8::valid_utf8;

verus! {

/// Whitespace as trimmed from line ends: space, tab, CR, LF.
pub open spec fn is_ws_byte(b: u8) -> bool {
    b == 32 || b == 9 || b == 13 || b == 10
}

/// The first index at or after `from` holding `b`, or the length when none.
pub open spec fn find_byte(s: Seq<u8>, b: u8, from: int) -> int
    decreases s.len() - from,
{
    if from < 0 || from >= s.len() {
        s.len() as int
    } else if s[from] == b {
        from
    } else {
        find_byte(s, b, from + 1)
    }
}

/// What `find_byte` returns: the first occurrence, or the length.
pub proof fn lemma_find_byte(s: Seq<u8>, b: u8, from: int)
    requires
        0 <= from <= s.len(),
    ensures
        from <= find_byte(s, b, from) <= s.len(),
        find_byte(s, b, from) < s.len() ==> s[find_byte(s, b, from)] == b,
        forall|j: int| from <= j < find_byte(s, b, from) ==> s[j] != b,
    decreases s.len() - from,
{
    if from < s.len() && s[from] != b {
        lemma_find_byte(s, b, from + 1);
    }
}

/// The end of `s[lo..hi]` once trailing whitespace is dropped.
pub open spec fn trim_end_from(s: Seq<u8>, lo: int, hi: int) -> int
    decreases hi - lo,
{
    if hi <= lo {
        lo
    } else if is_ws_byte(s[hi - 1]) {
        trim_end_from(s, lo, hi - 1)
    } else {
        hi
    }
}

/// Trimming stays within the range.
pub proof fn lemma_trim_end_from(s: Seq<u8>, lo: int, hi: int)
    requires
        0 <= lo <= hi <= s.len(),
    ensures
        lo <= trim_end_from(s, lo, hi) <= hi,
    decreases hi - lo,
{
    if hi > lo && is_ws_byte(s[hi - 1]) {
        lemma_trim_end_from(s, lo, hi - 1);
    }
}

/// An ASCII decimal digit.
pub open spec fn is_digit_byte(b: u8) -> bool {
    48 <= b <= 57
}

/// Whether every byte is an ASCII decimal digit.
pub open spec fn all_digits_bytes(s: Seq<u8>) -> bool {
    forall|i: int| 0 <= i < s.len() ==> is_digit_byte(#[trigger] s[i])
}

/// The value of an ASCII decimal digit string, most significant digit first.
pub open spec fn dec_val_bytes(s: Seq<u8>) -> nat
    decreases s.len(),
{
    if s.len() == 0 {
        0
    } else {
        dec_val_bytes(s.drop_last()) * 10 + (s.last() - 48) as nat
    }
}

/// A digit string is worth at least any of its prefixes.
pub proof fn lemma_dec_val_bytes_prefix(s: Seq<u8>, m: int)
    requires
        0 <= m <= s.len(),
        all_digits_bytes(s),
    ensures
        dec_val_bytes(s.take(m)) <= dec_val_bytes(s),
    decreases s.len(),
{
    if m == s.len() {
        assert(s.take(m) =~= s);
    } else {
        let front = s.drop_last();
        assert(forall|i: int| 0 <= i < front.len() ==> #[trigger] front[i] == s[i]);
        lemma_dec_val_bytes_prefix(front, m);
        assert(front.take(m) =~= s.take(m));
    }
}

/// An ASCII decimal digit as a character.
pub open spec fn is_digit_char(c: char) -> bool {
    48 <= c as u32 <= 57
}

/// Whether every character is an ASCII decimal digit.
pub open spec fn all_digits_chars(s: Seq<char>) -> bool {
    forall|i: int| 0 <= i < s.len() ==> is_digit_char(#[trigger] s[i])
}

/// The value of a decimal digit string, most significant digit first.
pub open spec fn dec_val_chars(s: Seq<char>) -> nat
    decreases s.len(),
{
    if s.len() == 0 {
        0
    } else {
        dec_val_chars(s.drop_last()) * 10 + (s.last() as u32 - 48) as nat
    }
}

/// A digit string is worth at least any of its prefixes.
pub proof fn lemma_dec_val_chars_prefix(s: Seq<char>, m: int)
    requires
        0 <= m <= s.len(),
        all_digits_chars(s),
    ensures
        dec_val_chars(s.take(m)) <= dec_val_chars(s),
    decreases s.len(),
{
    if m == s.len() {
        assert(s.take(m) =~= s);
    } else {
        let front = s.drop_last();
        assert(forall|i: int| 0 <= i < front.len() ==> #[trigger] front[i] == s[i]);
        lemma_dec_val_chars_prefix(front, m);
        assert(front.take(m) =~= s.take(m));
    }
}

/// The character of one decimal digit.
pub open spec fn digit_char(d: int) -> char {
    if d == 0 {
        '0'
    } else if d == 1 {
        '1'
    } else if d == 2 {
        '2'
    } else if d == 3 {
        '3'
    } else if d == 4 {
        '4'
    } else if d == 5 {
        '5'
    } else if d == 6 {
        '6'
    } else if d == 7 {
        '7'
    } else if d == 8 {
        '8'
    } else {
        '9'
    }
}

/// The decimal rendering of `n`, without leading zeros (a lone zero for 0).
pub open spec fn dec_chars_of(n: nat) -> Seq<char>
    decreases n,
{
    if n < 10 {
        seq![digit_char(n as int)]
    } else {
        dec_chars_of(n / 10).push(digit_char((n % 10) as int))
    }
}

/// Each byte read as the character with the same code point.
pub open spec fn chars_of_bytes(s: Seq<u8>) -> Seq<char> {
    s.map_values(|b: u8| b as char)
}

/// The first index at or after `from` holding `b`, or the length when none.
pub fn find_byte_in(s: &[u8], b: u8, from: usize) -> (r: usize)
    requires
        from <= s@.len(),
    ensures
        r == find_byte(s@, b, from as int),
        from <= r <= s@.len(),
    {
    let n = s.len();
    let mut i: usize = from;
    while i < n
        invariant
            from <= i <= n,
            n == s@.len(),
            find_byte(s@, b, from as int) == find_byte(s@, b, i as int),
        decreases n - i,
    {
        if *vstd::slice::slice_index_get(s, i) == b {
            return i;
        }
        i += 1;
    }
    proof {
        lemma_find_byte(s@, b, i as int);
    }
    n
}

/// The first index in `[lo, hi)` holding `b`, or `hi` when none does.
pub fn find_byte_range(s: &[u8], b: u8, lo: usize, hi: usize) -> (r: usize)
    requires
        lo <= hi,
        hi <= s@.len(),
    ensures
        lo <= r <= hi,
        r < hi ==> s@[r as int] == b,
        forall|j: int| lo <= j < r ==> s@[j] != b,
{
    let mut i: usize = lo;
    while i < hi
        invariant
            lo <= i <= hi,
            hi <= s@.len(),
            forall|j: int| lo <= j < i ==> s@[j] != b,
        decreases hi - i,
    {
        if *vstd::slice::slice_index_get(s, i) == b {
            return i;
        }
        i += 1;
    }
    hi
}

/// The end of `s[lo..hi]` once trailing whitespace is dropped.
pub fn trim_end_in(s: &[u8], lo: usize, hi: usize) -> (r: usize)
    requires
        lo <= hi,
        hi <= s@.len(),
    ensures
        r == trim_end_from(s@, lo as int, hi as int),
        lo <= r <= hi,
{
    let mut h: usize = hi;
    while h > lo && is_ws_exec(*vstd::slice::slice_index_get(s, h - 1))
        invariant
            lo <= h <= hi,
            hi <= s@.len(),
            trim_end_from(s@, lo as int, hi as int) == trim_end_from(s@, lo as int, h as int),
        decreases h,
    {
        h -= 1;
    }
    h
}

/// Whether `b` is whitespace as trimmed from line ends.
fn is_ws_exec(b: u8) -> (r: bool)
    ensures
        r == is_ws_byte(b),
{
    b == 32 || b == 9 || b == 13 || b == 10
}

/// The value of the digit range `s[lo..hi]`, when it is a non-empty all-digit
/// string whose value fits a `u32`.
pub fn parse_u32_range(s: &[u8], lo: usize, hi: usize) -> (r: Option<u32>)
    requires
        lo <= hi,
        hi <= s@.len(),
    ensures
        (match r {
            Some(v) => {
                let t = s@.subrange(lo as int, hi as int);
                t.len() > 0 && all_digits_bytes(t) && dec_val_bytes(t) == v
            },
            None => {
                let t = s@.subrange(lo as int, hi as int);
                t.len() == 0 || !all_digits_bytes(t) || dec_val_bytes(t) > u32::MAX
            },
        }),
{
    let ghost t = s@.subrange(lo as int, hi as int);
    if lo == hi {
        return None;
    }
    let mut v: u32 = 0;
    let mut i: usize = lo;
    while i < hi
        invariant
            lo <= i <= hi,
            hi <= s@.len(),
            t == s@.subrange(lo as int, hi as int),
            all_digits_bytes(t.take(i - lo)),
            v == dec_val_bytes(t.take(i - lo)),
        decreases hi - i,
    {
        let b = *vstd::slice::slice_index_get(s, i);
        proof {
            assert(t[i - lo] == s@[i as int]);
        }
        if b < 48 || b > 57 {
            proof {
                assert(!is_digit_byte(t[i - lo]));
            }
            return None;
        }
        let d = b - 48;
        let step = match v.checked_mul(10) {
            Some(m) => m.checked_add(d as u32),
            None => None,
        };
        match step {
            Some(w) => {
                proof {
                    assert(t.take(i - lo + 1).drop_last() =~= t.take(i - lo));
                    assert(t.take(i - lo + 1).last() == t[i - lo]);
                }
                v = w;
            },
            None => {
                proof {
                    assert(t.take(i - lo + 1).drop_last() =~= t.take(i - lo));
                    assert(t.take(i - lo + 1).last() == t[i - lo]);
                    assert(dec_val_bytes(t.take(i - lo + 1)) > u32::MAX);
                    if all_digits_bytes(t) {
                        lemma_dec_val_bytes_prefix(t, i - lo + 1);
                    }
                }
                return None;
            },
        }
        i += 1;
    }
    proof {
        assert(t.take(hi - lo) =~= t);
    }
    Some(v)
}

/// The value of a decimal digit string, when it is non-empty, all digits,
/// and its value fits a `usize`.
pub fn parse_usize_str(s: &String) -> (r: Option<usize>)
    ensures
        (match r {
            Some(v) => s@.len() > 0 && all_digits_chars(s@) && dec_val_chars(s@) == v,
            None => s@.len() == 0 || !all_digits_chars(s@) || dec_val_chars(s@) > usize::MAX,
        }),
{
    let n = s.as_str().unicode_len();
    if n == 0 {
        return None;
    }
    let mut v: usize = 0;
    let mut i: usize = 0;
    while i < n
        invariant
            0 <= i <= n,
            n == s@.len(),
            all_digits_chars(s@.take(i as int)),
            v == dec_val_chars(s@.take(i as int)),
        decreases n - i,
    {
        let c = s.as_str().get_char(i);
        let u = c as u32;
        if u < 48 || u > 57 {
            proof {
                assert(!is_digit_char(s@[i as int]));
            }
            return None;
        }
        let d = (u - 48) as usize;
        let step = match v.checked_mul(10) {
            Some(m) => m.checked_add(d),
            None => None,
        };
        match step {
            Some(w) => {
                proof {
                    assert(s@.take(i + 1).drop_last() =~= s@.take(i as int));
                    assert(s@.take(i + 1).last() == s@[i as int]);
                }
                v = w;
            },
            None => {
                proof {
                    assert(s@.take(i + 1).drop_last() =~= s@.take(i as int));
                    assert(s@.take(i + 1).last() == s@[i as int]);
                    assert(dec_val_chars(s@.take(i + 1)) > usize::MAX);
                    if all_digits_chars(s@) {
                        lemma_dec_val_chars_prefix(s@, i + 1);
                    }
                }
                return None;
            },
        }
        i += 1;
    }
    proof {
        assert(s@.take(n as int) =~= s@);
    }
    Some(v)
}

/// Relies on `String::from_utf8`: it returns `Ok` exactly when the bytes are
/// valid UTF-8, and the string it then carries is their decoding.
#[verifier::external_body]
pub fn string_from_utf8(v: Vec<u8>) -> (r: Option<String>)
    ensures
        r is Some <==> valid_utf8(v@),
        r is Some ==> r.unwrap()@ == decode_utf8(v@),
{
    match String::from_utf8(v) {
        Ok(s) => Some(s),
        Err(_) => None,
    }
}

/// A string made of ASCII bytes, each read as one character.
pub fn ascii_bytes_to_string(v: Vec<u8>) -> (r: String)
    requires
        forall|i: int| 0 <= i < v@.len() ==> #[trigger] v@[i] < 128,
    ensures
        r@ == chars_of_bytes(v@),
{
    let ghost cs = chars_of_bytes(v@);
    proof {
        assert(is_ascii_chars(cs));
        is_ascii_chars_encode_utf8(cs);
        assert(encode_utf8(cs) =~= v@);
        encode_utf8_valid_utf8(cs);
        encode_utf8_decode_utf8(cs);
    }
    match string_from_utf8(v) {
        Some(s) => s,
        None => vstd::pervasive::unreached(),
    }
}

/// The decimal rendering of `n`, without leading zeros.
pub fn digits_string(n: usize) -> (r: String)
    ensures
        r@ == dec_chars_of(n as nat),
{
    let mut codes: Vec<u8> = Vec::new();
    let mut m: usize = n;
    proof {
        assert(codes@.reverse() =~= Seq::<u8>::empty());
        assert(dec_chars_of(n as nat) =~= dec_chars_of(n as nat) + chars_of_bytes(
            codes@.reverse(),
        ));
    }
    loop
        invariant_except_break
            dec_chars_of(n as nat) == dec_chars_of(m as nat) + chars_of_bytes(codes@.reverse()),
            forall|i: int| 0 <= i < codes@.len() ==> 48 <= #[trigger] codes@[i] < 128,
        ensures
            dec_chars_of(n as nat) == chars_of_bytes(codes@.reverse()),
            forall|i: int| 0 <= i < codes@.len() ==> 48 <= #[trigger] codes@[i] < 128,
        decreases m,
    {
        let d = (m % 10) as u8;
        let ghost oldcodes = codes@;
        codes.push(48 + d);
        proof {
            assert(codes@.reverse() =~= seq![(48 + d) as u8] + oldcodes.reverse());
            assert(chars_of_bytes(codes@.reverse()) =~= seq![digit_char(d as int)]
                + chars_of_bytes(oldcodes.reverse()));
            if m >= 10 {
                assert(dec_chars_of(m as nat) == dec_chars_of((m as nat) / 10).push(
                    digit_char(((m as nat) % 10) as int),
                ));
                assert(dec_chars_of((m / 10) as nat) + chars_of_bytes(codes@.reverse())
                    =~= dec_chars_of(m as nat) + chars_of_bytes(oldcodes.reverse()));
            } else {
                assert(dec_chars_of(m as nat) =~= seq![digit_char(m as int)]);
                assert(chars_of_bytes(codes@.reverse()) =~= dec_chars_of(m as nat)
                    + chars_of_bytes(oldcodes.reverse()));
            }
        }
        if m < 10 {
            break ;
        }
        m = m / 10;
    }
    let nd = codes.len();
    let mut out: Vec<u8> = Vec::new();
    let mut i: usize = nd;
    while i > 0
        invariant
            0 <= i <= nd,
            nd == codes@.len(),
            forall|j: int| 0 <= j < codes@.len() ==> 48 <= #[trigger] codes@[j] < 128,
            out@ =~= codes@.reverse().take(nd - i),
        decreases i,
    {
        i -= 1;
        out.push(*vstd::std_specs::vec::vec_index(&codes, i));
        proof {
            assert(codes@.reverse()[nd - 1 - i] == codes@[i as int]);
            assert(out@ =~= codes@.reverse().take(nd - i));
        }
    }
    proof {
        assert(out@ =~= codes@.reverse());
        assert(dec_chars_of(n as nat) =~= chars_of_bytes(codes@.reverse()));
    }
    ascii_bytes_to_string(out)
}

} // verus!

//! Decimal text for durable values.
//!
//! The sync cursor is persisted as a decimal string and read back on startup,
//! and numeric columns are bound to the store as decimal text. Both directions
//! are specified here against one mathematical definition of the numeral, so
//! that a persisted cursor is always recovered exactly.

use vstd::prelude::*;

verus! {

/// The ASCII byte for a single decimal digit `d < 10`.
pub open spec fn dec_digit(d: nat) -> u8 {
    (48 + d) as u8
}

/// The ASCII decimal numeral of `n`, most significant digit first,
/// without sign or leading zeros.
pub open spec fn dec_bytes(n: nat) -> Seq<u8>
    decreases n,
{
    if n < 10 {
        seq![dec_digit(n)]
    } else {
        dec_bytes(n / 10).push(dec_digit(n % 10))
    }
}

pub open spec fn is_dec_digit(b: u8) -> bool {
    48 <= b <= 57
}

pub open spec fn all_dec_digits(s: Seq<u8>) -> bool {
    forall|i: int| 0 <= i < s.len() ==> is_dec_digit(s[i])
}

/// The value of a run of decimal digit bytes.
pub open spec fn digits_val(s: Seq<u8>) -> nat
    decreases s.len(),
{
    if s.len() == 0 {
        0
    } else {
        (digits_val(s.drop_last()) * 10 + (s.last() - 48)) as nat
    }
}

/// The digits of a numeral after the optional leading `+` sign,
/// as `u32::from_str` accepts it.
pub open spec fn numeral_body(s: Seq<u8>) -> Seq<u8> {
    if s.len() > 0 && s[0] == 43 {
        s.skip(1)
    } else {
        s
    }
}

/// Whether `s` is text that parses as a `u32`: an optional `+` sign,
/// then one or more decimal digits whose value fits in 32 bits.
pub open spec fn is_u32_numeral(s: Seq<u8>) -> bool {
    &&& numeral_body(s).len() > 0
    &&& all_dec_digits(numeral_body(s))
    &&& digits_val(numeral_body(s)) <= u32::MAX
}

/// The `u32` that `s` denotes, or `None` where `s` is not a numeral.
pub open spec fn spec_parse_u32(s: Seq<u8>) -> Option<u32> {
    if is_u32_numeral(s) {
        Some(digits_val(numeral_body(s)) as u32)
    } else {
        None
    }
}

fn push_dec(n: u32, out: &mut Vec<u8>)
    ensures
        final(out)@ == old(out)@ + dec_bytes(n as nat),
    decreases n,
{
    if n < 10 {
        out.push(48 + n as u8);
    } else {
        push_dec(n / 10, out);
        out.push(48 + (n % 10) as u8);
        proof {
            assert(out@ =~= old(out)@ + dec_bytes(n as nat));
        }
    }
}

/// Renders `n` as its ASCII decimal numeral.
pub fn u32_to_dec(n: u32) -> (v: Vec<u8>)
    ensures
        v@ == dec_bytes(n as nat),
{
    let mut v: Vec<u8> = Vec::new();
    push_dec(n, &mut v);
    proof {
        assert(v@ =~= dec_bytes(n as nat));
    }
    v
}

/// A prefix of a digit run never exceeds the value of the whole run.
proof fn lemma_digits_val_prefix_le(s: Seq<u8>, i: int)
    requires
        0 <= i <= s.len(),
        all_dec_digits(s),
    ensures
        digits_val(s.take(i)) <= digits_val(s),
    decreases s.len(),
{
    if i == s.len() {
        assert(s.take(i) =~= s);
    } else {
        assert(all_dec_digits(s.drop_last())) by {
            assert(forall|j: int|
                0 <= j < s.drop_last().len() ==> s.drop_last()[j] == s[j]);
        }
        lemma_digits_val_prefix_le(s.drop_last(), i);
        assert(s.take(i) =~= s.drop_last().take(i));
    }
}

/// Parses `s` exactly as `u32::from_str` does: an optional `+` sign, then
/// decimal digits; rejects empty bodies, other characters, and overflow.
pub fn parse_u32(s: &[u8]) -> (r: Option<u32>)
    ensures
        r == spec_parse_u32(s@),
{
    let len = s.len();
    let start: usize = if len > 0 && s[0] == 43 {
        1
    } else {
        0
    };
    proof {
        assert(numeral_body(s@) =~= s@.skip(start as int));
    }
    if len == start {
        return None;
    }
    let mut i: usize = start;
    let mut acc: u64 = 0;
    while i < len
        invariant
            start <= i <= len,
            len == s@.len(),
            numeral_body(s@) =~= s@.skip(start as int),
            acc <= u32::MAX,
            all_dec_digits(s@.subrange(start as int, i as int)),
            acc == digits_val(s@.subrange(start as int, i as int)),
        decreases len - i,
    {
        let b = s[i];
        if b < 48 || b > 57 {
            assert(!all_dec_digits(numeral_body(s@))) by {
                assert(numeral_body(s@)[i - start] == b);
            }
            return None;
        }
        proof {
            assert(s@.subrange(start as int, i + 1).drop_last()
                =~= s@.subrange(start as int, i as int));
            assert(forall|j: int| 0 <= j < i + 1 - start ==>
                #[trigger] s@.subrange(start as int, i + 1)[j] == s@[start + j]);
        }
        acc = acc * 10 + (b - 48) as u64;
        i = i + 1;
        if acc > 0xFFFF_FFFF {
            assert(!is_u32_numeral(s@)) by {
                if all_dec_digits(numeral_body(s@)) {
                    lemma_digits_val_prefix_le(
                        numeral_body(s@),
                        i - start,
                    );
                    assert(numeral_body(s@).take(i - start)
                        =~= s@.subrange(start as int, i as int));
                }
            }
            return None;
        }
    }
    proof {
        assert(s@.subrange(start as int, len as int) =~= numeral_body(s@));
    }
    Some(acc as u32)
}

/// Whether `s` is text that parses as a `u64`: an optional `+` sign, then
/// one or more decimal digits whose value fits in 64 bits.
pub open spec fn is_u64_numeral(s: Seq<u8>) -> bool {
    &&& numeral_body(s).len() > 0
    &&& all_dec_digits(numeral_body(s))
    &&& digits_val(numeral_body(s)) <= u64::MAX
}

/// The `u64` that `s` denotes, or `None` where `s` is not a numeral.
pub open spec fn spec_parse_u64(s: Seq<u8>) -> Option<u64> {
    if is_u64_numeral(s) {
        Some(digits_val(numeral_body(s)) as u64)
    } else {
        None
    }
}

/// Parses `s` exactly as `u64::from_str` does: an optional `+` sign, then
/// decimal digits; rejects empty bodies, other characters, and overflow.
pub fn parse_u64(s: &[u8]) -> (r: Option<u64>)
    ensures
        r == spec_parse_u64(s@),
{
    let len = s.len();
    let start: usize = if len > 0 && s[0] == 43 {
        1
    } else {
        0
    };
    proof {
        assert(numeral_body(s@) =~= s@.skip(start as int));
    }
    if len == start {
        return None;
    }
    let mut i: usize = start;
    let mut acc: u128 = 0;
    while i < len
        invariant
            start <= i <= len,
            len == s@.len(),
            numeral_body(s@) =~= s@.skip(start as int),
            acc <= u64::MAX,
            all_dec_digits(s@.subrange(start as int, i as int)),
            acc == digits_val(s@.subrange(start as int, i as int)),
        decreases len - i,
    {
        let b = s[i];
        if b < 48 || b > 57 {
            assert(!all_dec_digits(numeral_body(s@))) by {
                assert(numeral_body(s@)[i - start] == b);
            }
            return None;
        }
        proof {
            assert(s@.subrange(start as int, i + 1).drop_last()
                =~= s@.subrange(start as int, i as int));
            assert(forall|j: int| 0 <= j < i + 1 - start ==>
                #[trigger] s@.subrange(start as int, i + 1)[j] == s@[start + j]);
        }
        acc = acc * 10 + (b - 48) as u128;
        i = i + 1;
        if acc > 0xFFFF_FFFF_FFFF_FFFF {
            assert(!is_u64_numeral(s@)) by {
                if all_dec_digits(numeral_body(s@)) {
                    lemma_digits_val_prefix_le(
                        numeral_body(s@),
                        i - start,
                    );
                    assert(numeral_body(s@).take(i - start)
                        =~= s@.subrange(start as int, i as int));
                }
            }
            return None;
        }
    }
    proof {
        assert(s@.subrange(start as int, len as int) =~= numeral_body(s@));
    }
    Some(acc as u64)
}

/// The numeral of `n` is all digits, nonempty, unsigned, and denotes `n`.
pub proof fn lemma_dec_bytes_val(n: nat)
    ensures
        dec_bytes(n).len() > 0,
        all_dec_digits(dec_bytes(n)),
        dec_bytes(n)[0] != 43,
        digits_val(dec_bytes(n)) == n,
    decreases n,
{
    if n < 10 {
        assert(dec_bytes(n) =~= seq![dec_digit(n)]);
        assert(dec_bytes(n).drop_last() =~= Seq::<u8>::empty());
        assert(digits_val(Seq::<u8>::empty()) == 0);
        assert(dec_digit(n) == 48 + n);
        assert(digits_val(dec_bytes(n)) == n);
    } else {
        lemma_dec_bytes_val(n / 10);
        let q = n / 10;
        let d = n % 10;
        let w = dec_bytes(q);
        assert(dec_bytes(n) == w.push(dec_digit(d)));
        assert(dec_bytes(n).drop_last() =~= w);
        assert(dec_bytes(n).last() == dec_digit(d));
        assert(d < 10);
        assert(dec_digit(d) == 48 + d);
        assert(digits_val(dec_bytes(n)) == (digits_val(w) * 10 + d) as nat);
        assert(n == 10 * q + d) by {
            vstd::arithmetic::div_mod::lemma_fundamental_div_mod(n as int, 10);
        }
        assert(digits_val(dec_bytes(n)) == n);
        assert(forall|i: int| 0 <= i < dec_bytes(n).len() ==>
            is_dec_digit(#[trigger] dec_bytes(n)[i])) by {
            assert(forall|i: int| 0 <= i < w.len() ==>
                dec_bytes(n)[i] == w[i]);
        }
    }
}

/// Persisting a cursor and reading it back recovers the same value:
/// the decimal rendering of any `u32` parses to exactly that `u32`.
pub proof fn lemma_dec_round_trip(n: u32)
    ensures
        spec_parse_u32(dec_bytes(n as nat)) == Some(n),
{
    lemma_dec_bytes_val(n as nat);
    assert(numeral_body(dec_bytes(n as nat)) =~= dec_bytes(n as nat));
}

/// The characters of a run of ASCII bytes, one per byte.
pub open spec fn ascii_chars(s: Seq<u8>) -> Seq<char> {
    Seq::new(s.len(), |i: int| s[i] as char)
}

/// Relies on `String::from_utf8_lossy`: bytes below `0x80` are valid UTF-8
/// and decode unchanged, one character per byte.
#[verifier::external_body]
fn lossy_ascii_string(v: Vec<u8>) -> (s: String)
    requires
        forall|i: int| 0 <= i < v@.len() ==> v@[i] < 128,
    ensures
        s@ == ascii_chars(v@),
{
    String::from_utf8_lossy(&v).into_owned()
}

/// The decimal numeral of `n` as text.
pub open spec fn dec_chars(n: nat) -> Seq<char> {
    ascii_chars(dec_bytes(n))
}

/// Renders `n` as its decimal numeral in a `String`.
pub fn u32_to_string(n: u32) -> (s: String)
    ensures
        s@ == dec_chars(n as nat),
{
    let v = u32_to_dec(n);
    proof {
        lemma_dec_bytes_val(n as nat);
        assert(forall|i: int| 0 <= i < v@.len() ==> v@[i] < 128) by {
            assert(forall|i: int| 0 <= i < v@.len() ==> is_dec_digit(#[trigger] v@[i]));
        }
    }
    lossy_ascii_string(v)
}

/// Bytes Rust's `str::trim` removes at the ends of ASCII text.
pub open spec fn is_ascii_ws(b: u8) -> bool {
    b == 32 || b == 9 || b == 10 || b == 11 || b == 12 || b == 13
}

pub open spec fn trim_front(s: Seq<u8>) -> Seq<u8>
    decreases s.len(),
{
    if s.len() > 0 && is_ascii_ws(s[0]) {
        trim_front(s.skip(1))
    } else {
        s
    }
}

pub open spec fn trim_back(s: Seq<u8>) -> Seq<u8>
    decreases s.len(),
{
    if s.len() > 0 && is_ascii_ws(s.last()) {
        trim_back(s.drop_last())
    } else {
        s
    }
}

pub open spec fn trim_ws(s: Seq<u8>) -> Seq<u8> {
    trim_back(trim_front(s))
}

proof fn lemma_trim_front_skip(s: Seq<u8>, lo: int)
    requires
        0 <= lo <= s.len(),
        forall|j: int| 0 <= j < lo ==> is_ascii_ws(s[j]),
        lo == s.len() || !is_ascii_ws(s[lo]),
    ensures
        trim_front(s) =~= s.skip(lo),
    decreases lo,
{
    if lo == 0 {
        assert(s.skip(0) =~= s);
    } else {
        lemma_trim_front_skip(s.skip(1), lo - 1);
        assert(s.skip(1).skip(lo - 1) =~= s.skip(lo));
    }
}

proof fn lemma_trim_back_take(s: Seq<u8>, hi: int)
    requires
        0 <= hi <= s.len(),
        forall|j: int| hi <= j < s.len() ==> is_ascii_ws(s[j]),
        hi == 0 || !is_ascii_ws(s[hi - 1]),
    ensures
        trim_back(s) =~= s.take(hi),
    decreases s.len() - hi,
{
    if hi == s.len() {
        assert(s.take(hi) =~= s);
    } else {
        lemma_trim_back_take(s.drop_last(), hi);
        assert(s.drop_last().take(hi) =~= s.take(hi));
    }
}

/// Copies `s` without leading or trailing ASCII whitespace.
pub fn trim_bytes(s: &[u8]) -> (v: Vec<u8>)
    ensures
        v@ == trim_ws(s@),
{
    let len = s.len();
    let mut lo: usize = 0;
    while lo < len && (s[lo] == 32 || s[lo] == 9 || s[lo] == 10 || s[lo] == 11
        || s[lo] == 12 || s[lo] == 13)
        invariant
            0 <= lo <= len,
            len == s@.len(),
            forall|j: int| 0 <= j < lo ==> is_ascii_ws(s@[j]),
        decreases len - lo,
    {
        lo = lo + 1;
    }
    let mut hi: usize = len;
    while hi > lo && (s[hi - 1] == 32 || s[hi - 1] == 9 || s[hi - 1] == 10
        || s[hi - 1] == 11 || s[hi - 1] == 12 || s[hi - 1] == 13)
        invariant
            lo <= hi <= len,
            len == s@.len(),
            forall|j: int| 0 <= j < lo ==> is_ascii_ws(s@[j]),
            forall|j: int| hi <= j < len ==> is_ascii_ws(s@[j]),
        decreases hi,
    {
        hi = hi - 1;
    }
    proof {
        lemma_trim_front_skip(s@, lo as int);
        if hi == lo {
            lemma_trim_back_take(s@.skip(lo as int), 0);
        } else {
            lemma_trim_back_take(s@.skip(lo as int), hi - lo);
        }
        assert(trim_ws(s@) =~= s@.subrange(lo as int, hi as int));
    }
    let mut v: Vec<u8> = Vec::new();
    let mut i: usize = lo;
    while i < hi
        invariant
            lo <= i <= hi <= len,
            len == s@.len(),
            v@ =~= s@.subrange(lo as int, i as int),
        decreases hi - i,
    {
        v.push(s[i]);
        i = i + 1;
        proof {
            assert(v@ =~= s@.subrange(lo as int, i as int));
        }
    }
    proof {
        assert(v@ =~= trim_ws(s@));
    }
    v
}

/// The block the sync loop resumes at, given the persisted cursor file's
/// bytes: the trimmed decimal value, or block 1 where the file is absent
/// or does not hold a numeral.
pub open spec fn spec_cursor_start(text: Option<Seq<u8>>) -> u32 {
    match text {
        Some(s) => match spec_parse_u32(trim_ws(s)) {
            Some(c) => c,
            None => 1,
        },
        None => 1,
    }
}

/// Recovers the sync cursor from the persisted file's content.
pub fn cursor_start(text: Option<&[u8]>) -> (c: u32)
    ensures
        c == spec_cursor_start(match text {
            Some(s) => Some(s@),
            None => None,
        }),
{
    match text {
        None => 1,
        Some(s) => {
            let t = trim_bytes(s);
            match parse_u32(t.as_slice()) {
                Some(c) => c,
                None => 1,
            }
        },
    }
}

} // verus!

//! Text primitives shared by the whole toolchain: decimal rendering and
//! parsing of unsigned and signed 64-bit integers, the FNV-1a 64-bit hash
//! with its 16-digit lowercase hex rendering, and conversions between
//! `String` and `Vec<char>`.

use vstd::prelude::*;

verus! {

/// The views of a sequence of strings.
pub open spec fn seq_views(v: Seq<String>) -> Seq<Seq<char>> {
    v.map_values(|s: String| s@)
}

/// Strict lexicographic order on character sequences, by code point; this is
/// the order in which `String` values sort.
pub open spec fn seq_lt(a: Seq<char>, b: Seq<char>) -> bool
    decreases a.len(),
{
    if b.len() == 0 {
        false
    } else if a.len() == 0 {
        true
    } else if a[0] == b[0] {
        seq_lt(a.drop_first(), b.drop_first())
    } else {
        (a[0] as u32) < (b[0] as u32)
    }
}

/// Lexicographic order is a strict total order: exactly one of the three
/// relations holds between any two character sequences.
pub proof fn lemma_seq_lt_trichotomy(a: Seq<char>, b: Seq<char>)
    ensures
        seq_lt(a, b) || seq_lt(b, a) || a == b,
        seq_lt(a, b) ==> !seq_lt(b, a) && a != b,
        seq_lt(b, a) ==> !seq_lt(a, b) && a != b,
    decreases a.len(),
{
    if a.len() == 0 && b.len() == 0 {
        assert(a =~= b);
    } else if a.len() > 0 && b.len() > 0 {
        if a[0] == b[0] {
            lemma_seq_lt_trichotomy(a.drop_first(), b.drop_first());
            if a.drop_first() == b.drop_first() {
                assert(a.len() == b.len());
                assert forall|i: int| 0 <= i < a.len() implies a[i] == b[i] by {
                    if i >= 1 {
                        assert(a[i] == a.drop_first()[i - 1]);
                        assert(b[i] == b.drop_first()[i - 1]);
                    }
                }
                assert(a =~= b);
            }
            if a == b {
                assert(a.drop_first() =~= b.drop_first());
            }
        } else {
            assert(a != b) by {
                assert(a[0] != b[0]);
            }
            if !((a[0] as u32) < (b[0] as u32)) && !((b[0] as u32) < (a[0] as u32)) {
                assert(a[0] as u32 == b[0] as u32);
                vstd::utf8::char_u32_cast(a[0], a[0] as u32);
                vstd::utf8::char_u32_cast(b[0], b[0] as u32);
                assert(false);
            }
        }
    }
}

pub proof fn lemma_seq_lt_trans(a: Seq<char>, b: Seq<char>, c: Seq<char>)
    requires
        seq_lt(a, b),
        seq_lt(b, c),
    ensures
        seq_lt(a, c),
    decreases a.len(),
{
    if a.len() > 0 && b.len() > 0 && c.len() > 0 {
        if a[0] == b[0] && b[0] == c[0] {
            lemma_seq_lt_trans(a.drop_first(), b.drop_first(), c.drop_first());
        }
    }
}

pub const FNV_OFFSET: u64 = 0xcbf29ce484222325;

pub const FNV_PRIME: u64 = 0x100000001B3;

/// The character for a single decimal digit value.
pub open spec fn dec_digit(d: nat) -> char {
    if d == 0 {
        '0'
    } else if d == 1 {
        '1'
    } else if d == 2 {
        '2'
    } else if d == 3 {
        '3'
    } else if d == 4 {
        '4'
    } else if d == 5 {
        '5'
    } else if d == 6 {
        '6'
    } else if d == 7 {
        '7'
    } else if d == 8 {
        '8'
    } else {
        '9'
    }
}

/// Canonical decimal rendering of a natural number (no leading zeros,
/// except that zero itself renders as "0").
pub open spec fn dec_nat(n: nat) -> Seq<char>
    decreases n,
{
    if n < 10 {
        seq![dec_digit(n)]
    } else {
        dec_nat(n / 10).push(dec_digit(n % 10))
    }
}

pub open spec fn dec_u64(v: u64) -> Seq<char> {
    dec_nat(v as nat)
}

/// Decimal rendering of a signed 64-bit integer, with a leading '-' for
/// negative values.
pub open spec fn dec_i64(v: i64) -> Seq<char> {
    if v >= 0 {
        dec_nat(v as nat)
    } else {
        seq!['-'] + dec_nat((-(v as int)) as nat)
    }
}

pub open spec fn bool_text(b: bool) -> Seq<char> {
    if b {
        "true"@
    } else {
        "false"@
    }
}

pub open spec fn is_dec_digit(c: char) -> bool {
    48 <= c as u32 && c as u32 <= 57
}

pub open spec fn dec_val(c: char) -> nat {
    (c as u32 - 48) as nat
}

pub open spec fn all_digits(s: Seq<char>) -> bool {
    forall|i: int| 0 <= i < s.len() ==> is_dec_digit(#[trigger] s[i])
}

/// The numeric value of a digit string, most significant digit first.
pub open spec fn digits_val(s: Seq<char>) -> nat
    decreases s.len(),
{
    if s.len() == 0 {
        0
    } else {
        digits_val(s.drop_last()) * 10 + dec_val(s.last())
    }
}

/// What parsing a decimal `u64` from a character sequence yields: the value,
/// if the sequence is a nonempty run of digits whose value fits in a `u64`.
pub open spec fn spec_parse_u64(s: Seq<char>) -> Option<u64> {
    if s.len() == 0 || !all_digits(s) || digits_val(s) > u64::MAX {
        None
    } else {
        Some(digits_val(s) as u64)
    }
}

pub open spec fn fnv1a_step(h: u64, b: u8) -> u64 {
    vstd::wrapping::u64_specs::wrapping_mul(h ^ (b as u64), FNV_PRIME)
}

/// FNV-1a over a byte sequence, folded left to right.
pub open spec fn fnv1a(bytes: Seq<u8>) -> u64
    decreases bytes.len(),
{
    if bytes.len() == 0 {
        FNV_OFFSET
    } else {
        fnv1a_step(fnv1a(bytes.drop_last()), bytes.last())
    }
}

pub open spec fn hex_digit(d: nat) -> char {
    if d < 10 {
        dec_digit(d)
    } else if d == 10 {
        'a'
    } else if d == 11 {
        'b'
    } else if d == 12 {
        'c'
    } else if d == 13 {
        'd'
    } else if d == 14 {
        'e'
    } else {
        'f'
    }
}

/// The low `k` hex digits of `h`, most significant first (zero padded).
pub open spec fn hex_rec(h: nat, k: nat) -> Seq<char>
    decreases k,
{
    if k == 0 {
        Seq::empty()
    } else {
        hex_rec(h / 16, (k - 1) as nat).push(hex_digit(h % 16))
    }
}

/// 16-digit zero-padded lowercase hex rendering of a 64-bit word.
pub open spec fn hex16(h: u64) -> Seq<char> {
    hex_rec(h as nat, 16)
}

/// The characters of a decimal rendering are digits and encode the value back.
pub proof fn lemma_dec_nat(n: nat)
    ensures
        dec_nat(n).len() >= 1,
        all_digits(dec_nat(n)),
        digits_val(dec_nat(n)) == n,
    decreases n,
{
    if n < 10 {
        assert(dec_nat(n) == seq![dec_digit(n)]);
        assert(dec_nat(n).drop_last() =~= Seq::<char>::empty());
        assert(digits_val(Seq::<char>::empty()) == 0);
        assert(dec_nat(n).last() == dec_digit(n));
        assert('0' as u32 == 48);
        assert(dec_val(dec_digit(n)) == n);
        assert(digits_val(dec_nat(n)) == dec_val(dec_digit(n)));
    } else {
        lemma_dec_nat(n / 10);
        let s = dec_nat(n / 10).push(dec_digit(n % 10));
        assert(s.drop_last() =~= dec_nat(n / 10));
        assert(forall|i: int|
            0 <= i < s.len() ==> is_dec_digit(#[trigger] s[i])) by {
            assert(forall|i: int|
                0 <= i < dec_nat(n / 10).len() ==> is_dec_digit(#[trigger] dec_nat(n / 10)[i]));
        }
        assert(digits_val(s) == (n / 10) * 10 + n % 10);
        assert(n == (n / 10) * 10 + n % 10) by (nonlinear_arith);
    }
}

/// Parsing inverts rendering for `u64` values.
pub proof fn lemma_parse_dec_u64(v: u64)
    ensures
        spec_parse_u64(dec_u64(v)) == Some(v),
{
    lemma_dec_nat(v as nat);
}

/// Conversion between a string and its characters.
/// Relies on `str::chars` and `FromIterator<char> for Vec`: the characters
/// of the string, in order.
#[verifier::external_body]
pub fn str_to_chars(s: &str) -> (r: Vec<char>)
    ensures
        r@ == s@,
{
    s.chars().collect()
}

/// Conversion between characters and the string they spell.
/// Relies on `FromIterator<char> for String`: the string holding exactly
/// these characters, in order.
#[verifier::external_body]
pub fn chars_to_string(v: &Vec<char>) -> (r: String)
    ensures
        r@ == v@,
{
    v.iter().collect()
}

/// Decimal rendering of a `u64`.
/// Relies on `Display for u64`: the canonical decimal digits of the value.
#[verifier::external_body]
pub fn u64_to_dec(v: u64) -> (r: String)
    ensures
        r@ == dec_u64(v),
{
    format!("{}", v)
}

/// Decimal rendering of an `i64`.
/// Relies on `Display for i64`: the canonical decimal digits of the value,
/// with a leading '-' when negative.
#[verifier::external_body]
pub fn i64_to_dec(v: i64) -> (r: String)
    ensures
        r@ == dec_i64(v),
{
    format!("{}", v)
}

/// Digit strings only grow in value as digits are appended.
proof fn lemma_digits_val_prefix_le(s: Seq<char>, i: int, j: int)
    requires
        0 <= i <= j <= s.len(),
    ensures
        digits_val(s.take(i)) <= digits_val(s.take(j)),
    decreases j - i,
{
    if i < j {
        lemma_digits_val_prefix_le(s, i, j - 1);
        assert(s.take(j).drop_last() =~= s.take(j - 1));
        assert(digits_val(s.take(j)) == digits_val(s.take(j - 1)) * 10 + dec_val(s.take(j).last()));
        assert(digits_val(s.take(j - 1)) * 10 >= digits_val(s.take(j - 1))) by (nonlinear_arith);
    }
}

/// Parse a nonempty run of decimal digits as a `u64`.
pub fn parse_u64_chars(v: &Vec<char>) -> (r: Option<u64>)
    ensures
        r == spec_parse_u64(v@),
{
    if v.len() == 0 {
        return None;
    }
    let mut acc: u64 = 0;
    let mut i: usize = 0;
    while i < v.len()
        invariant
            0 <= i <= v.len(),
            all_digits(v@.take(i as int)),
            acc == digits_val(v@.take(i as int)),
            digits_val(v@.take(i as int)) <= u64::MAX,
        decreases v.len() - i,
    {
        let c = v[i];
        let u = c as u32;
        if u < 48 || u > 57 {
            assert(!is_dec_digit(v@[i as int]));
            return None;
        }
        let d: u64 = (u - 48) as u64;
        assert(v@.take(i + 1).drop_last() =~= v@.take(i as int));
        assert(v@.take(i + 1).last() == v@[i as int]);
        if acc > (u64::MAX - d) / 10 {
            proof {
                assert(digits_val(v@.take(i + 1)) == acc * 10 + d);
                assert(acc * 10 + d > u64::MAX) by (nonlinear_arith)
                    requires
                        acc > (u64::MAX - d) / 10,
                        d <= 9,
                        acc <= u64::MAX,
                ;
                lemma_digits_val_prefix_le(v@, i + 1, v@.len() as int);
                assert(v@.take(v@.len() as int) =~= v@);
            }
            return None;
        }
        assert(acc * 10 + d <= u64::MAX) by (nonlinear_arith)
            requires
                acc <= (u64::MAX - d) / 10,
                d <= 9,
        ;
        acc = acc * 10 + d;
        i = i + 1;
    }
    assert(v@.take(v@.len() as int) =~= v@);
    Some(acc)
}

/// Compare two strings in the lexicographic order `seq_lt`.
pub fn str_lt_exec(a: &String, b: &String) -> (r: bool)
    ensures
        r == seq_lt(a@, b@),
{
    let av = str_to_chars(a.as_str());
    let bv = str_to_chars(b.as_str());
    let mut i: usize = 0;
    proof {
        assert(a@.skip(0) =~= a@);
        assert(b@.skip(0) =~= b@);
    }
    while i < av.len() && i < bv.len()
        invariant
            av@ == a@,
            bv@ == b@,
            0 <= i <= av.len(),
            0 <= i <= bv.len(),
            seq_lt(a@, b@) == seq_lt(a@.skip(i as int), b@.skip(i as int)),
        decreases av.len() - i,
    {
        let ghost ra = a@.skip(i as int);
        let ghost rb = b@.skip(i as int);
        assert(ra[0] == a@[i as int]);
        assert(rb[0] == b@[i as int]);
        if av[i] == bv[i] {
            proof {
                assert(ra.drop_first() =~= a@.skip(i + 1));
                assert(rb.drop_first() =~= b@.skip(i + 1));
            }
            i = i + 1;
        } else {
            return (av[i] as u32) < (bv[i] as u32);
        }
    }
    proof {
        if i >= av.len() {
            assert(a@.skip(i as int) =~= Seq::<char>::empty());
        } else {
            assert(b@.skip(i as int) =~= Seq::<char>::empty());
        }
    }
    i < bv.len()
}

/// Build the string "true" or "false".
pub fn bool_to_text(b: bool) -> (r: String)
    ensures
        r@ == bool_text(b),
{
    if b {
        String::from_str("true")
    } else {
        String::from_str("false")
    }
}

fn hex_digit_exec(d: u64) -> (c: char)
    requires
        d < 16,
    ensures
        c == hex_digit(d as nat),
{
    if d == 0 {
        '0'
    } else if d == 1 {
        '1'
    } else if d == 2 {
        '2'
    } else if d == 3 {
        '3'
    } else if d == 4 {
        '4'
    } else if d == 5 {
        '5'
    } else if d == 6 {
        '6'
    } else if d == 7 {
        '7'
    } else if d == 8 {
        '8'
    } else if d == 9 {
        '9'
    } else if d == 10 {
        'a'
    } else if d == 11 {
        'b'
    } else if d == 12 {
        'c'
    } else if d == 13 {
        'd'
    } else if d == 14 {
        'e'
    } else {
        'f'
    }
}

/// Render a 64-bit word as 16 lowercase hex digits, zero padded.
pub fn hex16_string(h: u64) -> (r: String)
    ensures
        r@ == hex16(h),
{
    let mut digits: Vec<char> = Vec::new();
    let mut x: u64 = h;
    let mut k: usize = 0;
    while k < 16
        invariant
            0 <= k <= 16,
            digits.len() == k,
            hex16(h) =~= hex_rec(x as nat, (16 - k) as nat) + digits@.reverse(),
        decreases 16 - k,
    {
        let d = x % 16;
        let c = hex_digit_exec(d);
        proof {
            let old_digits = digits@;
            assert(hex_rec(x as nat, (16 - k) as nat) == hex_rec(
                x as nat / 16,
                (15 - k) as nat,
            ).push(hex_digit(x as nat % 16)));
            assert(old_digits.push(c).reverse() =~= seq![c] + old_digits.reverse());
            assert(hex_rec(x as nat / 16, (15 - k) as nat).push(c) + old_digits.reverse()
                =~= hex_rec(x as nat / 16, (15 - k) as nat) + (seq![c] + old_digits.reverse()));
        }
        digits.push(c);
        x = x / 16;
        k = k + 1;
    }
    assert(hex_rec(x as nat, 0) =~= Seq::<char>::empty());
    assert(hex16(h) =~= digits@.reverse());
    let mut out: Vec<char> = Vec::new();
    let mut i: usize = 0;
    while i < 16
        invariant
            0 <= i <= 16,
            digits.len() == 16,
            out.len() == i,
            forall|j: int| 0 <= j < i ==> out@[j] == digits@[15 - j],
        decreases 16 - i,
    {
        out.push(digits[15 - i]);
        i = i + 1;
    }
    assert(out@ =~= digits@.reverse());
    chars_to_string(&out)
}

/// FNV-1a over a byte slice, rendered as 16 lowercase hex digits.
pub fn fnv1a64_hex(bytes: &[u8]) -> (r: String)
    ensures
        r@ == hex16(fnv1a(bytes@)),
{
    let mut hash: u64 = FNV_OFFSET;
    let mut i: usize = 0;
    while i < bytes.len()
        invariant
            0 <= i <= bytes@.len(),
            hash == fnv1a(bytes@.take(i as int)),
        decreases bytes@.len() - i,
    {
        let b = bytes[i];
        assert(bytes@.take(i + 1).drop_last() =~= bytes@.take(i as int));
        hash = (hash ^ (b as u64)).wrapping_mul(FNV_PRIME);
        i = i + 1;
    }
    assert(bytes@.take(bytes@.len() as int) =~= bytes@);
    hex16_string(hash)
}

/// The digest of a string: FNV-1a over its UTF-8 bytes, in hex.
pub open spec fn digest_of_text(text: Seq<char>) -> Seq<char> {
    hex16(fnv1a(vstd::utf8::encode_utf8(text)))
}

/// FNV-1a digest of a string's UTF-8 bytes, rendered in hex.
pub fn fnv_hex_of_str(s: &str) -> (r: String)
    ensures
        r@ == digest_of_text(s@),
{
    fnv1a64_hex(s.as_bytes())
}

} // verus!

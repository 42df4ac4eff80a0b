//! Verified text utilities shared by the cache, manifest and config code:
//! decimal and hexadecimal formatting and parsing, lexicographic string
//! order, and small string helpers (find, split, trim).

use vstd::prelude::*;

verus! {

// ---------------------------------------------------------------------------
// Character classes
// ---------------------------------------------------------------------------

pub open spec fn is_digit_char(c: char) -> bool {
    48 <= (c as u32) && (c as u32) <= 57
}

pub open spec fn digit_val(c: char) -> nat {
    ((c as u32) - 48) as nat
}

pub open spec fn digit_char(d: nat) -> char {
    if d == 0 {
        '0'
    } else if d == 1 {
        '1'
    } else if d == 2 {
        '2'
    } else if d == 3 {
        '3'
    } else if d == 4 {
        '4'
    } else if d == 5 {
        '5'
    } else if d == 6 {
        '6'
    } else if d == 7 {
        '7'
    } else if d == 8 {
        '8'
    } else {
        '9'
    }
}

pub open spec fn all_digits(s: Seq<char>) -> bool {
    forall|i: int| 0 <= i < s.len() ==> is_digit_char(#[trigger] s[i])
}

pub open spec fn is_hex_digit_char(c: char) -> bool {
    is_digit_char(c) || (97 <= (c as u32) && (c as u32) <= 102) || (65 <= (c as u32) && (c as u32)
        <= 70)
}

pub open spec fn hex_digit_val(c: char) -> nat {
    if is_digit_char(c) {
        digit_val(c)
    } else if 97 <= (c as u32) && (c as u32) <= 102 {
        ((c as u32) - 87) as nat
    } else {
        ((c as u32) - 55) as nat
    }
}

pub open spec fn hex_digit_char(d: nat) -> char {
    if d < 10 {
        digit_char(d)
    } else if d == 10 {
        'a'
    } else if d == 11 {
        'b'
    } else if d == 12 {
        'c'
    } else if d == 13 {
        'd'
    } else if d == 14 {
        'e'
    } else {
        'f'
    }
}

pub open spec fn all_hex_digits(s: Seq<char>) -> bool {
    forall|i: int| 0 <= i < s.len() ==> is_hex_digit_char(#[trigger] s[i])
}

// ---------------------------------------------------------------------------
// Decimal and hexadecimal numerals, as sequences of characters
// ---------------------------------------------------------------------------

/// The usual (shortest) decimal numeral of `n`.
pub open spec fn dec_seq(n: nat) -> Seq<char>
    decreases n,
{
    if n < 10 {
        seq![digit_char(n)]
    } else {
        dec_seq(n / 10).push(digit_char(n % 10))
    }
}

/// The decimal numeral of `n`, zero-padded to exactly `w` digits.
pub open spec fn dec_pad(n: nat, w: nat) -> Seq<char>
    decreases w,
{
    if w == 0 {
        Seq::empty()
    } else {
        dec_pad(n / 10, (w - 1) as nat).push(digit_char(n % 10))
    }
}

/// The hexadecimal numeral of `n`, zero-padded to exactly `w` digits,
/// lowercase.
pub open spec fn hex_pad(n: nat, w: nat) -> Seq<char>
    decreases w,
{
    if w == 0 {
        Seq::empty()
    } else {
        hex_pad(n / 16, (w - 1) as nat).push(hex_digit_char(n % 16))
    }
}

/// The value of a decimal digit string.
pub open spec fn dec_val(s: Seq<char>) -> nat
    decreases s.len(),
{
    if s.len() == 0 {
        0
    } else {
        dec_val(s.drop_last()) * 10 + digit_val(s.last())
    }
}

/// The value of a hexadecimal digit string (either letter case).
pub open spec fn hex_val(s: Seq<char>) -> nat
    decreases s.len(),
{
    if s.len() == 0 {
        0
    } else {
        hex_val(s.drop_last()) * 16 + hex_digit_val(s.last())
    }
}

pub open spec fn pow10(w: nat) -> nat
    decreases w,
{
    if w == 0 {
        1
    } else {
        10 * pow10((w - 1) as nat)
    }
}

pub open spec fn pow16(w: nat) -> nat
    decreases w,
{
    if w == 0 {
        1
    } else {
        16 * pow16((w - 1) as nat)
    }
}

// ---------------------------------------------------------------------------
// Lemmas about numerals
// ---------------------------------------------------------------------------

pub proof fn lemma_digit_char_val(d: nat)
    requires
        d < 10,
    ensures
        digit_val(digit_char(d)) == d,
        is_digit_char(digit_char(d)),
{
}

pub proof fn lemma_hex_digit_char_val(d: nat)
    requires
        d < 16,
    ensures
        hex_digit_val(hex_digit_char(d)) == d,
        is_hex_digit_char(hex_digit_char(d)),
{
    if d < 10 {
        lemma_digit_char_val(d);
    }
}

pub proof fn lemma_dec_seq_digits(n: nat)
    ensures
        all_digits(dec_seq(n)),
        dec_seq(n).len() >= 1,
    decreases n,
{
    if n >= 10 {
        lemma_dec_seq_digits(n / 10);
    }
}

pub proof fn lemma_dec_pad_digits(n: nat, w: nat)
    ensures
        all_digits(dec_pad(n, w)),
        dec_pad(n, w).len() == w,
    decreases w,
{
    if w > 0 {
        lemma_dec_pad_digits(n / 10, (w - 1) as nat);
    }
}

pub proof fn lemma_hex_pad_digits(n: nat, w: nat)
    ensures
        all_hex_digits(hex_pad(n, w)),
        hex_pad(n, w).len() == w,
    decreases w,
{
    if w > 0 {
        lemma_hex_pad_digits(n / 16, (w - 1) as nat);
    }
}

/// Parsing a decimal numeral gives back the number.
pub proof fn lemma_dec_val_dec_seq(n: nat)
    ensures
        dec_val(dec_seq(n)) == n,
    decreases n,
{
    if n < 10 {
        lemma_digit_char_val(n);
        let s = dec_seq(n);
        assert(s == seq![digit_char(n)]);
        assert(s.drop_last() =~= Seq::<char>::empty());
        assert(s.last() == digit_char(n));
        assert(dec_val(s) == dec_val(s.drop_last()) * 10 + digit_val(s.last()));
        assert(dec_val(Seq::<char>::empty()) == 0);
    } else {
        lemma_digit_char_val(n % 10);
        lemma_dec_val_dec_seq(n / 10);
        let s = dec_seq(n);
        assert(s == dec_seq(n / 10).push(digit_char(n % 10)));
        assert(s.drop_last() =~= dec_seq(n / 10));
        assert(s.last() == digit_char(n % 10));
        assert(dec_val(s) == dec_val(s.drop_last()) * 10 + digit_val(s.last()));
    }
}

/// Parsing a padded decimal numeral gives back the number, provided it fits
/// in the width.
pub proof fn lemma_dec_val_dec_pad(n: nat, w: nat)
    requires
        n < pow10(w),
    ensures
        dec_val(dec_pad(n, w)) == n,
    decreases w,
{
    if w == 0 {
        assert(dec_pad(n, 0) =~= Seq::<char>::empty());
    } else {
        assert(n / 10 < pow10((w - 1) as nat)) by (nonlinear_arith)
            requires
                n < pow10(w),
                pow10(w) == 10 * pow10((w - 1) as nat),
        ;
        lemma_digit_char_val(n % 10);
        lemma_dec_val_dec_pad(n / 10, (w - 1) as nat);
        assert(dec_pad(n, w).drop_last() =~= dec_pad(n / 10, (w - 1) as nat));
    }
}

/// Parsing a padded hexadecimal numeral gives back the number, provided it
/// fits in the width.
pub proof fn lemma_hex_val_hex_pad(n: nat, w: nat)
    requires
        n < pow16(w),
    ensures
        hex_val(hex_pad(n, w)) == n,
    decreases w,
{
    if w == 0 {
        assert(hex_pad(n, 0) =~= Seq::<char>::empty());
    } else {
        assert(n / 16 < pow16((w - 1) as nat)) by (nonlinear_arith)
            requires
                n < pow16(w),
                pow16(w) == 16 * pow16((w - 1) as nat),
        ;
        lemma_hex_digit_char_val(n % 16);
        lemma_hex_val_hex_pad(n / 16, (w - 1) as nat);
        assert(hex_pad(n, w).drop_last() =~= hex_pad(n / 16, (w - 1) as nat));
    }
}

/// The value of a digit string only grows as the string is extended.
pub proof fn lemma_dec_val_take_le(s: Seq<char>, j: int)
    requires
        0 <= j <= s.len(),
    ensures
        dec_val(s.take(j)) <= dec_val(s),
    decreases s.len() - j,
{
    if j < s.len() {
        assert(s.take(j + 1).drop_last() =~= s.take(j));
        assert(dec_val(s.take(j)) <= dec_val(s.take(j + 1)));
        lemma_dec_val_take_le(s, j + 1);
        assert(s.take(s.len() as int) =~= s);
    } else {
        assert(s.take(j) =~= s);
    }
}

pub proof fn lemma_dec_val_bound(s: Seq<char>)
    requires
        all_digits(s),
    ensures
        dec_val(s) < pow10(s.len()),
    decreases s.len(),
{
    if s.len() == 0 {
    } else {
        lemma_dec_val_bound(s.drop_last());
        assert(dec_val(s.drop_last()) * 10 + digit_val(s.last()) < pow10(s.len()))
            by (nonlinear_arith)
            requires
                dec_val(s.drop_last()) < pow10((s.len() - 1) as nat),
                digit_val(s.last()) < 10,
                pow10(s.len()) == 10 * pow10((s.len() - 1) as nat),
        {
        }
    }
}

pub proof fn lemma_hex_val_bound(s: Seq<char>)
    requires
        all_hex_digits(s),
    ensures
        hex_val(s) < pow16(s.len()),
    decreases s.len(),
{
    if s.len() == 0 {
    } else {
        lemma_hex_val_bound(s.drop_last());
        assert(hex_val(s.drop_last()) * 16 + hex_digit_val(s.last()) < pow16(s.len()))
            by (nonlinear_arith)
            requires
                hex_val(s.drop_last()) < pow16((s.len() - 1) as nat),
                hex_digit_val(s.last()) < 16,
                pow16(s.len()) == 16 * pow16((s.len() - 1) as nat),
        {
        }
    }
}

// ---------------------------------------------------------------------------
// Formatting
// ---------------------------------------------------------------------------

/// A one-character string slice for a decimal digit value.
pub fn digit_str(d: u64) -> (s: &'static str)
    requires
        d < 10,
    ensures
        s@ =~= seq![digit_char(d as nat)],
{
    let r: &'static str = if d == 0 {
        "0"
    } else if d == 1 {
        "1"
    } else if d == 2 {
        "2"
    } else if d == 3 {
        "3"
    } else if d == 4 {
        "4"
    } else if d == 5 {
        "5"
    } else if d == 6 {
        "6"
    } else if d == 7 {
        "7"
    } else if d == 8 {
        "8"
    } else {
        "9"
    };
    proof {
        reveal_strlit("0");
        reveal_strlit("1");
        reveal_strlit("2");
        reveal_strlit("3");
        reveal_strlit("4");
        reveal_strlit("5");
        reveal_strlit("6");
        reveal_strlit("7");
        reveal_strlit("8");
        reveal_strlit("9");
    }
    r
}

/// A one-character string slice for a hexadecimal digit value, lowercase.
pub fn hex_digit_str(d: u64) -> (s: &'static str)
    requires
        d < 16,
    ensures
        s@ =~= seq![hex_digit_char(d as nat)],
{
    if d < 10 {
        digit_str(d)
    } else {
        let r: &'static str = if d == 10 {
            "a"
        } else if d == 11 {
            "b"
        } else if d == 12 {
            "c"
        } else if d == 13 {
            "d"
        } else if d == 14 {
            "e"
        } else {
            "f"
        };
        proof {
            reveal_strlit("a");
            reveal_strlit("b");
            reveal_strlit("c");
            reveal_strlit("d");
            reveal_strlit("e");
            reveal_strlit("f");
        }
        r
    }
}

/// Format `n` as its shortest decimal numeral.
pub fn u64_to_dec(n: u64) -> (s: String)
    ensures
        s@ == dec_seq(n as nat),
    decreases n,
{
    if n < 10 {
        let s = digit_str(n).to_owned();
        proof {
            assert(s@ =~= dec_seq(n as nat));
        }
        s
    } else {
        let mut s = u64_to_dec(n / 10);
        s.append(digit_str(n % 10));
        proof {
            assert(s@ =~= dec_seq(n as nat));
        }
        s
    }
}

/// Format `n` as a decimal numeral, zero-padded to `w` digits.
pub fn u64_to_dec_pad(n: u64, w: usize) -> (s: String)
    ensures
        s@ == dec_pad(n as nat, w as nat),
    decreases w,
{
    if w == 0 {
        let s = String::new();
        proof {
            assert(s@ =~= dec_pad(n as nat, 0));
        }
        s
    } else {
        let mut s = u64_to_dec_pad(n / 10, w - 1);
        s.append(digit_str(n % 10));
        proof {
            assert(s@ =~= dec_pad(n as nat, w as nat));
        }
        s
    }
}

/// Format `n` as a hexadecimal numeral, zero-padded to `w` digits.
pub fn u64_to_hex_pad(n: u64, w: usize) -> (s: String)
    ensures
        s@ == hex_pad(n as nat, w as nat),
    decreases w,
{
    if w == 0 {
        let s = String::new();
        proof {
            assert(s@ =~= hex_pad(n as nat, 0));
        }
        s
    } else {
        let mut s = u64_to_hex_pad(n / 16, w - 1);
        s.append(hex_digit_str(n % 16));
        proof {
            assert(s@ =~= hex_pad(n as nat, w as nat));
        }
        s
    }
}

/// Format a signed number: a `-` sign followed by the decimal magnitude.
pub open spec fn dec_int_seq(i: int) -> Seq<char> {
    if i < 0 {
        seq!['-'] + dec_seq((-i) as nat)
    } else {
        dec_seq(i as nat)
    }
}

pub fn i32_to_dec(n: i32) -> (s: String)
    ensures
        s@ == dec_int_seq(n as int),
{
    if n >= 0 {
        u64_to_dec(n as u64)
    } else {
        let mag: u64 = (-(n as i64)) as u64;
        let mut s = "-".to_owned();
        let m = u64_to_dec(mag);
        s.append(m.as_str());
        proof {
            reveal_strlit("-");
            assert(s@ =~= dec_int_seq(n as int));
        }
        s
    }
}

// ---------------------------------------------------------------------------
// Parsing
// ---------------------------------------------------------------------------

/// Parse a decimal numeral.  Succeeds exactly on non-empty all-digit
/// strings whose value fits in a `u64`.
pub fn parse_dec_u64(s: &str) -> (r: Option<u64>)
    ensures
        r.is_some() <==> (s@.len() > 0 && all_digits(s@) && dec_val(s@) <= u64::MAX),
        r.is_some() ==> r == Some(dec_val(s@) as u64),
{
    let len = s.unicode_len();
    if len == 0 {
        return None;
    }
    let mut acc: u64 = 0;
    let mut i: usize = 0;
    while i < len
        invariant
            0 <= i <= len,
            len == s@.len(),
            all_digits(s@.take(i as int)),
            acc == dec_val(s@.take(i as int)),
        decreases len - i,
    {
        let c = s.get_char(i);
        let cv: u32 = c as u32;
        if cv < 48 || cv > 57 {
            assert(!is_digit_char(s@[i as int]));
            return None;
        }
        let d: u64 = (cv - 48) as u64;
        if acc > (u64::MAX - d) / 10 {
            proof {
                assert(s@.take(i + 1).drop_last() =~= s@.take(i as int));
                assert(dec_val(s@.take(i + 1)) == acc * 10 + d);
                assert(acc * 10 + d > u64::MAX) by (nonlinear_arith)
                    requires
                        acc > (u64::MAX - d) / 10,
                        d < 10,
                ;
                lemma_dec_val_take_le(s@, i + 1);
            }
            return None;
        }
        proof {
            assert(s@.take(i + 1).drop_last() =~= s@.take(i as int));
        }
        acc = acc * 10 + d;
        i = i + 1;
    }
    proof {
        assert(s@.take(len as int) =~= s@);
    }
    Some(acc)
}

/// Parse a decimal numeral into a `u32`.  Succeeds exactly on non-empty
/// all-digit strings whose value fits in a `u32`.
pub fn parse_dec_u32(s: &str) -> (r: Option<u32>)
    ensures
        r.is_some() <==> (s@.len() > 0 && all_digits(s@) && dec_val(s@) <= u32::MAX),
        r.is_some() ==> r == Some(dec_val(s@) as u32),
{
    match parse_dec_u64(s) {
        Some(v) => {
            if v <= u32::MAX as u64 {
                Some(v as u32)
            } else {
                None
            }
        },
        None => None,
    }
}

/// Parse a fixed-width hexadecimal numeral of at most 16 digits, either
/// letter case.  Succeeds exactly on all-hex-digit strings.
pub fn parse_hex_u64(s: &str) -> (r: Option<u64>)
    requires
        s@.len() <= 16,
    ensures
        r.is_some() <==> all_hex_digits(s@),
        r.is_some() ==> r == Some(hex_val(s@) as u64),
{
    let len = s.unicode_len();
    let mut acc: u64 = 0;
    let mut i: usize = 0;
    while i < len
        invariant
            0 <= i <= len,
            len == s@.len() <= 16,
            all_hex_digits(s@.take(i as int)),
            acc == hex_val(s@.take(i as int)),
            acc < pow16(i as nat),
        decreases len - i,
    {
        let c = s.get_char(i);
        let cv: u32 = c as u32;
        let d: u64 = if 48 <= cv && cv <= 57 {
            (cv - 48) as u64
        } else if 97 <= cv && cv <= 102 {
            (cv - 87) as u64
        } else if 65 <= cv && cv <= 70 {
            (cv - 55) as u64
        } else {
            assert(!is_hex_digit_char(s@[i as int]));
            return None;
        };
        proof {
            assert(s@.take(i + 1).drop_last() =~= s@.take(i as int));
            assert(acc * 16 + d < pow16((i + 1) as nat)) by (nonlinear_arith)
                requires
                    acc < pow16(i as nat),
                    d < 16,
                    pow16((i + 1) as nat) == 16 * pow16(i as nat),
            ;
            assert(pow16(16) == 0x10000000000000000) by {
                reveal_with_fuel(pow16, 17);
            }
            lemma_pow16_le(((i + 1) as nat), 16);
        }
        acc = acc * 16 + d;
        i = i + 1;
    }
    proof {
        assert(s@.take(len as int) =~= s@);
    }
    Some(acc)
}

pub proof fn lemma_pow16_le(a: nat, b: nat)
    requires
        a <= b,
    ensures
        pow16(a) <= pow16(b),
    decreases b,
{
    if a < b {
        lemma_pow16_le(a, (b - 1) as nat);
        assert(pow16(b) == 16 * pow16((b - 1) as nat));
    }
}

// ---------------------------------------------------------------------------
// Lexicographic order on character sequences (by Unicode scalar value,
// which for UTF-8 encoded strings agrees with byte order)
// ---------------------------------------------------------------------------

pub open spec fn seq_lt(a: Seq<char>, b: Seq<char>) -> bool
    decreases a.len(),
{
    if b.len() == 0 {
        false
    } else if a.len() == 0 {
        true
    } else if a[0] == b[0] {
        seq_lt(a.skip(1), b.skip(1))
    } else {
        (a[0] as u32) < (b[0] as u32)
    }
}

pub proof fn lemma_seq_lt_irrefl(a: Seq<char>)
    ensures
        !seq_lt(a, a),
    decreases a.len(),
{
    if a.len() > 0 {
        lemma_seq_lt_irrefl(a.skip(1));
    }
}

pub proof fn lemma_seq_lt_asym(a: Seq<char>, b: Seq<char>)
    requires
        seq_lt(a, b),
    ensures
        !seq_lt(b, a),
    decreases a.len(),
{
    if a.len() > 0 && b.len() > 0 && a[0] == b[0] {
        lemma_seq_lt_asym(a.skip(1), b.skip(1));
    }
}

pub proof fn lemma_seq_lt_total(a: Seq<char>, b: Seq<char>)
    ensures
        seq_lt(a, b) || seq_lt(b, a) || a == b,
    decreases a.len(),
{
    if a.len() == 0 && b.len() == 0 {
        assert(a =~= b);
    } else if a.len() > 0 && b.len() > 0 {
        if a[0] == b[0] {
            lemma_seq_lt_total(a.skip(1), b.skip(1));
            if a.skip(1) == b.skip(1) {
                assert(a.skip(1).len() == b.skip(1).len());
                assert(a.len() == b.len());
                assert forall|k: int| 0 <= k < a.len() implies a[k] == #[trigger] b[k] by {
                    if k > 0 {
                        assert(a.skip(1)[k - 1] == b.skip(1)[k - 1]);
                        assert(a.skip(1)[k - 1] == a[k]);
                        assert(b.skip(1)[k - 1] == b[k]);
                    }
                }
                assert(a =~= b);
            }
        } else {
            vstd::utf8::char_u32_cast(a[0], a[0] as u32);
            vstd::utf8::char_u32_cast(b[0], b[0] as u32);
            assert((a[0] as u32) != (b[0] as u32));
        }
    }
}

pub proof fn lemma_seq_lt_trans(a: Seq<char>, b: Seq<char>, c: Seq<char>)
    requires
        seq_lt(a, b),
        seq_lt(b, c),
    ensures
        seq_lt(a, c),
    decreases a.len() + b.len() + c.len(),
{
    if b.len() > 0 && c.len() > 0 && a.len() > 0 {
        if a[0] == b[0] && b[0] == c[0] {
            lemma_seq_lt_trans(a.skip(1), b.skip(1), c.skip(1));
        }
    }
}

/// Restricting both sequences past a common prefix does not change their
/// relative order.
pub proof fn lemma_seq_lt_common_prefix(a: Seq<char>, b: Seq<char>, i: int)
    requires
        0 <= i <= a.len(),
        i <= b.len(),
        a.take(i) == b.take(i),
    ensures
        seq_lt(a, b) == seq_lt(a.skip(i), b.skip(i)),
    decreases i,
{
    if i > 0 {
        assert(a.take(i)[0] == b.take(i)[0]);
        assert(a.take(i)[0] == a[0]);
        assert(b.take(i)[0] == b[0]);
        assert(a[0] == b[0]);
        assert(a.skip(1).take(i - 1) =~= a.take(i).skip(1));
        assert(b.skip(1).take(i - 1) =~= b.take(i).skip(1));
        lemma_seq_lt_common_prefix(a.skip(1), b.skip(1), i - 1);
        assert(a.skip(1).skip(i - 1) =~= a.skip(i));
        assert(b.skip(1).skip(i - 1) =~= b.skip(i));
    } else {
        assert(a.skip(0) =~= a);
        assert(b.skip(0) =~= b);
    }
}

/// Three-way comparison result.
pub enum Cmp {
    Lt,
    Eq,
    Gt,
}

/// Three-way lexicographic comparison of two strings.
pub fn str_compare(a: &str, b: &str) -> (r: Cmp)
    ensures
        (r == Cmp::Lt) <==> seq_lt(a@, b@),
        (r == Cmp::Eq) <==> (a@ == b@),
        (r == Cmp::Gt) <==> seq_lt(b@, a@),
{
    let alen = a.unicode_len();
    let blen = b.unicode_len();
    let min: usize = if alen < blen {
        alen
    } else {
        blen
    };
    let mut i: usize = 0;
    while i < min
        invariant
            0 <= i <= min,
            alen == a@.len(),
            blen == b@.len(),
            min == if alen < blen {
                alen
            } else {
                blen
            },
            a@.take(i as int) == b@.take(i as int),
        decreases min - i,
    {
        let ca = a.get_char(i);
        let cb = b.get_char(i);
        if ca != cb {
            proof {
                lemma_seq_lt_common_prefix(a@, b@, i as int);
                lemma_seq_lt_common_prefix(b@, a@, i as int);
                assert(a@.skip(i as int)[0] == ca);
                assert(b@.skip(i as int)[0] == cb);
            }
            if (ca as u32) < (cb as u32) {
                return Cmp::Lt;
            } else {
                return Cmp::Gt;
            }
        }
        proof {
            assert(a@.take(i + 1) =~= b@.take(i + 1));
        }
        i = i + 1;
    }
    proof {
        lemma_seq_lt_common_prefix(a@, b@, min as int);
        lemma_seq_lt_common_prefix(b@, a@, min as int);
    }
    if alen == blen {
        proof {
            assert(a@.take(min as int) =~= a@);
            assert(b@.take(min as int) =~= b@);
            assert(a@ =~= b@);
            lemma_seq_lt_irrefl(a@);
        }
        Cmp::Eq
    } else if alen < blen {
        Cmp::Lt
    } else {
        Cmp::Gt
    }
}

/// String equality, as a plain boolean.
pub fn str_eq(a: &str, b: &str) -> (r: bool)
    ensures
        r == (a@ == b@),
{
    match str_compare(a, b) {
        Cmp::Eq => true,
        Cmp::Lt => false,
        Cmp::Gt => false,
    }
}

// ---------------------------------------------------------------------------
// Find, split, trim, replace
// ---------------------------------------------------------------------------

pub open spec fn no_char(s: Seq<char>, c: char) -> bool {
    forall|i: int| 0 <= i < s.len() ==> s[i] != c
}

/// All-digit strings contain no non-digit character.
pub proof fn lemma_digits_no_char(s: Seq<char>, c: char)
    requires
        all_digits(s),
        !is_digit_char(c),
    ensures
        no_char(s, c),
{
}

pub proof fn lemma_hex_digits_no_char(s: Seq<char>, c: char)
    requires
        all_hex_digits(s),
        !is_hex_digit_char(c),
    ensures
        no_char(s, c),
{
}

/// The index of the first occurrence of `c` in `s`, or `-1` when there is
/// none.
pub open spec fn first_occ(s: Seq<char>, c: char) -> int
    decreases s.len(),
{
    if s.len() == 0 {
        -1
    } else if s[0] == c {
        0
    } else {
        let r = first_occ(s.skip(1), c);
        if r == -1 {
            -1
        } else {
            r + 1
        }
    }
}

pub proof fn lemma_first_occ_none(s: Seq<char>, c: char)
    requires
        no_char(s, c),
    ensures
        first_occ(s, c) == -1,
    decreases s.len(),
{
    if s.len() > 0 {
        assert(forall|i: int| 0 <= i < s.skip(1).len() ==> s.skip(1)[i] == s[i + 1]);
        lemma_first_occ_none(s.skip(1), c);
    }
}

/// A separator-free prefix followed by the separator fixes the first
/// occurrence.
pub proof fn lemma_first_occ_decomposition(l: Seq<char>, a: Seq<char>, b: Seq<char>, c: char)
    requires
        l == a + seq![c] + b,
        no_char(a, c),
    ensures
        first_occ(l, c) == a.len(),
    decreases a.len(),
{
    if a.len() == 0 {
        assert(l[0] == c);
    } else {
        assert(l[0] == a[0]);
        assert(l.skip(1) =~= a.skip(1) + seq![c] + b);
        assert(forall|i: int| 0 <= i < a.skip(1).len() ==> a.skip(1)[i] == a[i + 1]);
        lemma_first_occ_decomposition(l.skip(1), a.skip(1), b, c);
    }
}

/// The first occurrence of `c`, characterized by position: `c` stands at
/// `i` and nowhere before it.
pub proof fn lemma_first_occ_at(s: Seq<char>, c: char, i: int)
    requires
        0 <= i < s.len(),
        s[i] == c,
        no_char(s.take(i), c),
    ensures
        first_occ(s, c) == i,
    decreases i + 1,
{
    if i == 0 {
    } else {
        assert(s.take(i)[0] == s[0]);
        assert(s[0] != c);
        let t = s.skip(1);
        assert(t[i - 1] == s[i]);
        assert forall|m: int| 0 <= m < i - 1 implies #[trigger] t.take(i - 1)[m] != c by {
            assert(t.take(i - 1)[m] == s[m + 1]);
            assert(s.take(i)[m + 1] == s[m + 1]);
        }
        lemma_first_occ_at(t, c, i - 1);
    }
}

/// A separator-free prefix followed by the separator pins down where the
/// first occurrence of the separator stands.
pub proof fn lemma_first_occurrence(l: Seq<char>, a: Seq<char>, b: Seq<char>, c: char, i: int)
    requires
        l == a + seq![c] + b,
        no_char(a, c),
        0 <= i < l.len(),
        l[i] == c,
        no_char(l.take(i), c),
    ensures
        i == a.len(),
{
    if i < a.len() {
        assert(l[i] == a[i]);
    } else if i > a.len() {
        assert(l.take(i)[a.len() as int] == l[a.len() as int]);
        assert(l[a.len() as int] == c);
    }
}

/// The position of the first occurrence of `c` in `s`, if any.
pub fn find_char(s: &str, c: char) -> (r: Option<usize>)
    ensures
        match r {
            Some(i) => i < s@.len() && s@[i as int] == c && no_char(s@.take(i as int), c),
            None => no_char(s@, c),
        },
{
    let len = s.unicode_len();
    let mut i: usize = 0;
    while i < len
        invariant
            0 <= i <= len,
            len == s@.len(),
            no_char(s@.take(i as int), c),
        decreases len - i,
    {
        if s.get_char(i) == c {
            return Some(i);
        }
        proof {
            assert forall|j: int| 0 <= j < i + 1 implies #[trigger] s@.take(i + 1)[j] != c by {
                if j < i {
                    assert(s@.take(i as int)[j] != c);
                }
            }
        }
        i = i + 1;
    }
    proof {
        assert(s@.take(len as int) =~= s@);
    }
    None
}

/// Split into the pieces between occurrences of `sep`, working through the
/// string with the piece accumulated so far.
pub open spec fn split_rec(s: Seq<char>, sep: char, cur: Seq<char>) -> Seq<Seq<char>>
    decreases s.len(),
{
    if s.len() == 0 {
        seq![cur]
    } else if s[0] == sep {
        seq![cur] + split_rec(s.skip(1), sep, Seq::empty())
    } else {
        split_rec(s.skip(1), sep, cur.push(s[0]))
    }
}

/// The pieces of `s` between occurrences of `sep`.  An empty string has one
/// (empty) piece; `n` separators give `n + 1` pieces.
pub open spec fn spec_split(s: Seq<char>, sep: char) -> Seq<Seq<char>> {
    split_rec(s, sep, Seq::empty())
}

/// A separator-free string splits into a single piece.
pub proof fn lemma_split_rec_no_sep(a: Seq<char>, sep: char, cur: Seq<char>)
    requires
        no_char(a, sep),
    ensures
        split_rec(a, sep, cur) == seq![cur + a],
    decreases a.len(),
{
    if a.len() == 0 {
        assert(cur + a =~= cur);
    } else {
        lemma_split_rec_no_sep(a.skip(1), sep, cur.push(a[0]));
        assert(cur.push(a[0]) + a.skip(1) =~= cur + a);
    }
}

/// Splitting at the first separator: a separator-free prefix becomes the
/// first piece, and the rest splits on its own.
pub proof fn lemma_split_rec_step(a: Seq<char>, b: Seq<char>, sep: char, cur: Seq<char>)
    requires
        no_char(a, sep),
    ensures
        split_rec(a + seq![sep] + b, sep, cur) == seq![cur + a] + split_rec(b, sep, Seq::empty()),
    decreases a.len(),
{
    let s = a + seq![sep] + b;
    if a.len() == 0 {
        assert(s[0] == sep);
        assert(s.skip(1) =~= b);
        assert(cur + a =~= cur);
    } else {
        assert(s[0] == a[0]);
        assert(s.skip(1) =~= a.skip(1) + seq![sep] + b);
        lemma_split_rec_step(a.skip(1), b, sep, cur.push(a[0]));
        assert(cur.push(a[0]) + a.skip(1) =~= cur + a);
    }
}

/// Split a string at every occurrence of `sep`.
pub fn split_str(s: &str, sep: char) -> (parts: Vec<String>)
    ensures
        parts@.map_values(|p: String| p@) == spec_split(s@, sep),
        parts@.len() >= 1,
{
    let len = s.unicode_len();
    let mut parts: Vec<String> = Vec::new();
    let mut start: usize = 0;
    let mut i: usize = 0;
    proof {
        assert(parts@.map_values(|p: String| p@) =~= Seq::<Seq<char>>::empty());
        assert(s@.skip(0) =~= s@);
        assert(s@.subrange(0, 0) =~= Seq::<char>::empty());
        assert(Seq::<Seq<char>>::empty() + split_rec(s@, sep, Seq::<char>::empty()) =~= split_rec(
            s@,
            sep,
            Seq::<char>::empty(),
        ));
    }
    while i < len
        invariant
            0 <= start <= i <= len,
            len == s@.len(),
            no_char(s@.subrange(start as int, i as int), sep),
            spec_split(s@, sep) == parts@.map_values(|p: String| p@) + split_rec(
                s@.skip(i as int),
                sep,
                s@.subrange(start as int, i as int),
            ),
        decreases len - i,
    {
        let ghost cur = s@.subrange(start as int, i as int);
        let c = s.get_char(i);
        proof {
            assert(s@.skip(i as int)[0] == s@[i as int]);
            assert(s@.skip(i as int).skip(1) =~= s@.skip(i + 1));
        }
        if c == sep {
            let piece = s.substring_char(start, i).to_owned();
            proof {
                assert((parts@.push(piece)).map_values(|p: String| p@) =~= parts@.map_values(
                    |p: String| p@,
                ).push(cur));
                assert(seq![cur] + split_rec(s@.skip(i + 1), sep, Seq::empty())
                    == split_rec(s@.skip(i as int), sep, cur));
                assert(parts@.map_values(|p: String| p@).push(cur) + split_rec(
                    s@.skip(i + 1),
                    sep,
                    Seq::empty(),
                ) =~= parts@.map_values(|p: String| p@) + (seq![cur] + split_rec(
                    s@.skip(i + 1),
                    sep,
                    Seq::empty(),
                )));
                assert(s@.subrange(i + 1, i + 1) =~= Seq::<char>::empty());
            }
            parts.push(piece);
            start = i + 1;
        } else {
            proof {
                assert(s@.subrange(start as int, i + 1) =~= cur.push(s@[i as int]));
            }
        }
        i = i + 1;
    }
    let piece = s.substring_char(start, len).to_owned();
    proof {
        let ghost cur = s@.subrange(start as int, len as int);
        assert(s@.skip(len as int) =~= Seq::<char>::empty());
        assert(split_rec(s@.skip(len as int), sep, cur) == seq![cur]);
        assert((parts@.push(piece)).map_values(|p: String| p@) =~= parts@.map_values(
            |p: String| p@,
        ).push(cur));
        assert(parts@.map_values(|p: String| p@).push(cur) =~= parts@.map_values(|p: String| p@)
            + seq![cur]);
    }
    parts.push(piece);
    parts
}

/// Split a string at the first occurrence of `sep`, if there is one.
pub fn split_once_str(s: &str, sep: char) -> (r: Option<(String, String)>)
    ensures
        match r {
            Some(p) => s@ == p.0@ + seq![sep] + p.1@ && no_char(p.0@, sep),
            None => no_char(s@, sep),
        },
{
    match find_char(s, sep) {
        Some(i) => {
            let len = s.unicode_len();
            let pre = s.substring_char(0, i).to_owned();
            let post = s.substring_char(i + 1, len).to_owned();
            proof {
                assert(pre@ =~= s@.take(i as int));
                assert(s@ =~= pre@ + seq![sep] + post@);
            }
            Some((pre, post))
        },
        None => None,
    }
}

/// The characters that `str::trim` removes: the Unicode white-space
/// characters.
/// The logical lines of a text, as a line reader yields them: the text
/// split at newlines, with a carriage return stripped from the end of
/// every line that a newline terminated, and without the empty piece
/// after a final newline.
pub open spec fn logical_lines(text: Seq<char>) -> Seq<Seq<char>> {
    let p = spec_split(text, '\n');
    let q = Seq::new(
        p.len(),
        |i: int|
            if i < p.len() - 1 && p[i].len() > 0 && p[i].last() == '\r' {
                p[i].drop_last()
            } else {
                p[i]
            },
    );
    if q.len() > 0 && q.last() == Seq::<char>::empty() {
        q.drop_last()
    } else {
        q
    }
}

/// A logical line: the piece at `j`, with a carriage return stripped from
/// its end when a newline followed it.
pub fn logical_line<'a>(pieces: &'a Vec<String>, j: usize) -> (r: &'a str)
    requires
        j < pieces@.len(),
    ensures
        r@ == ({
            let p = pieces@.map_values(|x: String| x@);
            if j + 1 < p.len() && p[j as int].len() > 0 && p[j as int].last() == '\r' {
                p[j as int].drop_last()
            } else {
                p[j as int]
            }
        }),
{
    let piece = pieces[j].as_str();
    let pl = piece.unicode_len();
    if j < pieces.len() - 1 && pl > 0 && piece.get_char(pl - 1) == '\r' {
        let r = piece.substring_char(0, pl - 1);
        proof {
            assert(r@ =~= piece@.drop_last());
        }
        r
    } else {
        piece
    }
}

pub open spec fn is_space_char(c: char) -> bool {
    ||| (9 <= (c as u32) && (c as u32) <= 13)
    ||| (c as u32) == 32
    ||| (c as u32) == 0x85
    ||| (c as u32) == 0xA0
    ||| (c as u32) == 0x1680
    ||| (0x2000 <= (c as u32) && (c as u32) <= 0x200A)
    ||| (c as u32) == 0x2028
    ||| (c as u32) == 0x2029
    ||| (c as u32) == 0x202F
    ||| (c as u32) == 0x205F
    ||| (c as u32) == 0x3000
}

/// The sequence with its leading characters satisfying `p` removed.
pub open spec fn trim_front(s: Seq<char>, p: spec_fn(char) -> bool) -> Seq<char>
    decreases s.len(),
{
    if s.len() > 0 && p(s[0]) {
        trim_front(s.skip(1), p)
    } else {
        s
    }
}

/// The sequence with its trailing characters satisfying `p` removed.
pub open spec fn trim_back(s: Seq<char>, p: spec_fn(char) -> bool) -> Seq<char>
    decreases s.len(),
{
    if s.len() > 0 && p(s.last()) {
        trim_back(s.drop_last(), p)
    } else {
        s
    }
}

pub open spec fn trim_seq(s: Seq<char>, p: spec_fn(char) -> bool) -> Seq<char> {
    trim_back(trim_front(s, p), p)
}

pub open spec fn space_pred() -> spec_fn(char) -> bool {
    |c: char| is_space_char(c)
}

pub open spec fn quote_pred() -> spec_fn(char) -> bool {
    |c: char| c == '"'
}

fn char_matches(c: char, quotes: bool) -> (r: bool)
    ensures
        r == if quotes {
            quote_pred()(c)
        } else {
            space_pred()(c)
        },
{
    if quotes {
        c == '"'
    } else {
        let v: u32 = c as u32;
        (9 <= v && v <= 13) || v == 32 || v == 0x85 || v == 0xA0 || v == 0x1680 || (0x2000 <= v
            && v <= 0x200A) || v == 0x2028 || v == 0x2029 || v == 0x202F || v == 0x205F || v
            == 0x3000
    }
}

fn trim_matching(s: &str, quotes: bool) -> (r: String)
    ensures
        r@ == trim_seq(
            s@,
            if quotes {
                quote_pred()
            } else {
                space_pred()
            },
        ),
{
    let ghost p = if quotes {
        quote_pred()
    } else {
        space_pred()
    };
    let len = s.unicode_len();
    let mut lo: usize = 0;
    proof {
        assert(s@.skip(0) =~= s@);
    }
    while lo < len && char_matches(s.get_char(lo), quotes)
        invariant
            0 <= lo <= len,
            len == s@.len(),
            p == if quotes {
                quote_pred()
            } else {
                space_pred()
            },
            trim_front(s@, p) == trim_front(s@.skip(lo as int), p),
        decreases len - lo,
    {
        proof {
            assert(s@.skip(lo as int)[0] == s@[lo as int]);
            assert(s@.skip(lo as int).skip(1) =~= s@.skip(lo + 1));
        }
        lo = lo + 1;
    }
    proof {
        if lo < len {
            assert(s@.skip(lo as int)[0] == s@[lo as int]);
        }
        assert(trim_front(s@, p) == s@.skip(lo as int));
        assert(s@.skip(lo as int) =~= s@.subrange(lo as int, len as int));
    }
    let mut hi: usize = len;
    while hi > lo && char_matches(s.get_char(hi - 1), quotes)
        invariant
            0 <= lo <= hi <= len,
            len == s@.len(),
            p == if quotes {
                quote_pred()
            } else {
                space_pred()
            },
            trim_front(s@, p) == s@.skip(lo as int),
            trim_back(s@.skip(lo as int), p) == trim_back(
                s@.subrange(lo as int, hi as int),
                p,
            ),
        decreases hi,
    {
        proof {
            let t = s@.subrange(lo as int, hi as int);
            assert(t.last() == s@[hi - 1]);
            assert(t.drop_last() =~= s@.subrange(lo as int, hi - 1));
        }
        hi = hi - 1;
    }
    let r = s.substring_char(lo, hi).to_owned();
    proof {
        let t = s@.subrange(lo as int, hi as int);
        if hi > lo {
            assert(t.last() == s@[hi - 1]);
        }
        assert(trim_back(t, p) == t);
    }
    r
}

/// Remove leading and trailing whitespace.
pub fn trim_spaces(s: &str) -> (r: String)
    ensures
        r@ == trim_seq(s@, space_pred()),
{
    trim_matching(s, false)
}

/// Remove leading and trailing double quotes.
pub fn trim_quotes(s: &str) -> (r: String)
    ensures
        r@ == trim_seq(s@, quote_pred()),
{
    trim_matching(s, true)
}

/// `s` with every forward slash replaced by a backslash.
pub open spec fn backslashify(s: Seq<char>) -> Seq<char> {
    s.map_values(
        |c: char|
            if c == '/' {
                '\\'
            } else {
                c
            },
    )
}

/// Replace every forward slash by a backslash.
pub fn normalize_slashes(s: &str) -> (r: String)
    ensures
        r@ == backslashify(s@),
{
    let len = s.unicode_len();
    let mut r = String::new();
    let mut i: usize = 0;
    proof {
        assert(r@ =~= backslashify(s@.take(0)));
    }
    while i < len
        invariant
            0 <= i <= len,
            len == s@.len(),
            r@ == backslashify(s@.take(i as int)),
        decreases len - i,
    {
        let c = s.get_char(i);
        if c == '/' {
            r.append("\\");
            proof {
                reveal_strlit("\\");
                assert(r@ =~= backslashify(s@.take(i + 1)));
            }
        } else {
            let piece = s.substring_char(i, i + 1);
            r.append(piece);
            proof {
                assert(piece@ =~= seq![s@[i as int]]);
                assert(r@ =~= backslashify(s@.take(i + 1)));
            }
        }
        i = i + 1;
    }
    proof {
        assert(s@.take(len as int) =~= s@);
    }
    r
}

} // verus!


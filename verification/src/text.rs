//! Decimal text: parsing digit strings into integers, rendering integers
//! back as digit strings with optional zero padding, and lexicographic
//! comparison of character sequences.

use vstd::prelude::*;
use vstd::string::StrSliceExecFns;
use vstd::string::StringExecFns;

verus! {

/// `c` is one of the ten ASCII digits.
pub open spec fn is_dec_digit(c: char) -> bool {
    48 <= c as int && c as int <= 57
}

/// Numeric value of a digit character.
pub open spec fn digit_val(c: char) -> nat {
    (c as int - 48) as nat
}

/// Every character of `s` is a digit.
pub open spec fn all_dec_digits(s: Seq<char>) -> bool {
    forall|i: int| 0 <= i < s.len() ==> is_dec_digit(#[trigger] s[i])
}

/// Value of a digit string read in base ten.
pub open spec fn dec_value(s: Seq<char>) -> nat
    decreases s.len(),
{
    if s.len() == 0 {
        0
    } else {
        dec_value(s.drop_last()) * 10 + digit_val(s.last())
    }
}

/// `s` is a non-empty digit string whose value does not exceed `max`:
/// the strings accepted as a non-negative integer of that range.
pub open spec fn parses_as_dec(s: Seq<char>, max: nat) -> bool {
    s.len() > 0 && all_dec_digits(s) && dec_value(s) <= max
}

/// The digit character of a value below ten.
pub open spec fn digit_char(d: nat) -> char {
    (48 + d) as char
}

/// Decimal representation of `n`, without leading zeros.
pub open spec fn dec_rep(n: nat) -> Seq<char>
    decreases n,
{
    if n < 10 {
        seq![digit_char(n)]
    } else {
        dec_rep(n / 10).push(digit_char(n % 10))
    }
}

/// `k` zero characters.
pub open spec fn zeros(k: nat) -> Seq<char>
    decreases k,
{
    if k == 0 {
        Seq::empty()
    } else {
        zeros((k - 1) as nat).push('0')
    }
}

/// `s` left-padded with zeros to width `w` (unchanged if already that wide).
pub open spec fn zero_pad(s: Seq<char>, w: nat) -> Seq<char> {
    if s.len() >= w {
        s
    } else {
        zeros((w - s.len()) as nat) + s
    }
}

/// The unpadded `year/month` path text of a group.
pub open spec fn group_dir_rep(year: nat, month: nat) -> Seq<char> {
    dec_rep(year) + seq!['/'] + dec_rep(month)
}

/// The flattened group token: the year padded to four characters,
/// then the month padded to two.
pub open spec fn flat_token(year: nat, month: nat) -> Seq<char> {
    zero_pad(dec_rep(year), 4) + zero_pad(dec_rep(month), 2)
}

/// Ten to the power `k`.
pub open spec fn pow10(k: nat) -> nat
    decreases k,
{
    if k == 0 {
        1
    } else {
        10 * pow10((k - 1) as nat)
    }
}

/// A digit character round-trips to its digit value.
pub proof fn lemma_digit_char_val(d: nat)
    requires
        d < 10,
    ensures
        digit_char(d) as int == 48 + d,
        is_dec_digit(digit_char(d)),
        digit_val(digit_char(d)) == d,
{
    if d == 0 {
        assert(digit_char(0) as int == 48);
    } else if d == 1 {
        assert(digit_char(1) as int == 49);
    } else if d == 2 {
        assert(digit_char(2) as int == 50);
    } else if d == 3 {
        assert(digit_char(3) as int == 51);
    } else if d == 4 {
        assert(digit_char(4) as int == 52);
    } else if d == 5 {
        assert(digit_char(5) as int == 53);
    } else if d == 6 {
        assert(digit_char(6) as int == 54);
    } else if d == 7 {
        assert(digit_char(7) as int == 55);
    } else if d == 8 {
        assert(digit_char(8) as int == 56);
    } else {
        assert(digit_char(9) as int == 57);
    }
}

/// The value of a digit-string prefix never exceeds the value of the whole.
pub proof fn lemma_dec_value_take_le(s: Seq<char>, i: int)
    requires
        0 <= i <= s.len(),
    ensures
        dec_value(s.take(i)) <= dec_value(s),
    decreases s.len() - i,
{
    if i == s.len() {
        assert(s.take(i) =~= s);
    } else {
        lemma_dec_value_take_le(s, i + 1);
        assert(s.take(i + 1).drop_last() =~= s.take(i));
        assert(dec_value(s.take(i + 1)) == dec_value(s.take(i)) * 10 + digit_val(
            s.take(i + 1).last(),
        ));
    }
}

/// The decimal representation is a non-empty digit string of exactly
/// the rendered value.
pub proof fn lemma_dec_rep_props(n: nat)
    ensures
        dec_rep(n).len() >= 1,
        all_dec_digits(dec_rep(n)),
        dec_value(dec_rep(n)) == n,
    decreases n,
{
    reveal_with_fuel(dec_value, 3);
    if n < 10 {
        lemma_digit_char_val(n);
        assert(dec_rep(n) =~= seq![digit_char(n)]);
        assert(dec_rep(n).drop_last() =~= Seq::<char>::empty());
        assert(digit_val(digit_char(n)) == n);
    } else {
        lemma_dec_rep_props(n / 10);
        lemma_digit_char_val(n % 10);
        let s = dec_rep(n);
        assert(s.drop_last() =~= dec_rep(n / 10));
        assert(s.last() == digit_char(n % 10));
        assert(digit_val(digit_char(n % 10)) == n % 10);
        assert(dec_value(s) == (n / 10) * 10 + n % 10);
        assert(n == (n / 10) * 10 + n % 10) by {
            vstd::arithmetic::div_mod::lemma_fundamental_div_mod(n as int, 10);
        }
        assert forall|i: int| 0 <= i < s.len() implies is_dec_digit(#[trigger] s[i]) by {
            if i < s.len() - 1 {
                assert(s[i] == dec_rep(n / 10)[i]);
            } else {
                assert(s[i] == digit_char(n % 10));
            }
        }
    }
}

/// A value below `pow10(k)` needs at most `k` digits.
pub proof fn lemma_dec_rep_len(n: nat, k: nat)
    requires
        k >= 1,
        n < pow10(k),
    ensures
        dec_rep(n).len() <= k,
    decreases k,
{
    if n < 10 {
    } else {
        assert(k >= 2) by {
            if k == 1 {
                assert(pow10(1nat) == 10);
            }
        }
        assert(n / 10 < pow10((k - 1) as nat)) by {
            assert(pow10(k) == 10 * pow10((k - 1) as nat));
            vstd::arithmetic::div_mod::lemma_fundamental_div_mod(n as int, 10);
        }
        lemma_dec_rep_len(n / 10, (k - 1) as nat);
    }
}

/// Concatenating digit strings multiplies the left value by the width
/// of the right part.
pub proof fn lemma_dec_value_concat(a: Seq<char>, b: Seq<char>)
    ensures
        dec_value(a + b) == dec_value(a) * pow10(b.len()) + dec_value(b),
    decreases b.len(),
{
    reveal_with_fuel(dec_value, 2);
    reveal_with_fuel(pow10, 2);
    if b.len() == 0 {
        assert(a + b =~= a);
        assert(b =~= Seq::<char>::empty());
        assert(dec_value(b) == 0);
        assert(pow10(0) == 1);
        assert(dec_value(a) * 1 == dec_value(a)) by (nonlinear_arith);
        assert(dec_value(a + b) == dec_value(a) * pow10(b.len()) + dec_value(b));
    } else {
        lemma_dec_value_concat(a, b.drop_last());
        assert(dec_value(b) == dec_value(b.drop_last()) * 10 + digit_val(b.last()));
        assert((a + b).drop_last() =~= a + b.drop_last());
        assert((a + b).last() == b.last());
        let va = dec_value(a) as int;
        let p = pow10((b.len() - 1) as nat) as int;
        let v2 = dec_value(b.drop_last()) as int;
        let dv = digit_val(b.last()) as int;
        assert(dec_value(a + b) == (va * p + v2) * 10 + dv);
        assert((va * p + v2) * 10 == (va * p) * 10 + v2 * 10);
        vstd::arithmetic::mul::lemma_mul_is_associative(va, p, 10);
        assert(pow10(b.len()) == 10 * pow10((b.len() - 1) as nat));
        assert(va * (p * 10) == va * (10 * p));
        assert(dec_value(a + b) == va * (10 * p) + (v2 * 10 + dv));
        assert(pow10(b.len()) as int == 10 * p);
        assert(dec_value(b) as int == v2 * 10 + dv);
        assert(dec_value(a) as int * pow10(b.len()) as int == va * (10 * p));
        assert(dec_value(a + b) == dec_value(a) * pow10(b.len()) + dec_value(b));
    }
}

/// A run of zero characters is a digit string of value zero.
pub proof fn lemma_zeros_props(k: nat)
    ensures
        zeros(k).len() == k,
        all_dec_digits(zeros(k)),
        dec_value(zeros(k)) == 0,
    decreases k,
{
    if k > 0 {
        lemma_zeros_props((k - 1) as nat);
        let s = zeros(k);
        assert(s.drop_last() =~= zeros((k - 1) as nat));
        assert(digit_val('0') == 0);
        assert forall|i: int| 0 <= i < s.len() implies is_dec_digit(#[trigger] s[i]) by {
            if i < s.len() - 1 {
                assert(s[i] == zeros((k - 1) as nat)[i]);
            } else {
                assert(s[i] == '0');
            }
        }
    }
}

/// Zero padding keeps the value and the digits, and widens to `w`.
pub proof fn lemma_zero_pad_props(s: Seq<char>, w: nat)
    requires
        all_dec_digits(s),
    ensures
        dec_value(zero_pad(s, w)) == dec_value(s),
        all_dec_digits(zero_pad(s, w)),
        zero_pad(s, w).len() == if s.len() >= w {
            s.len()
        } else {
            w
        },
{
    if s.len() < w {
        let k = (w - s.len()) as nat;
        lemma_zeros_props(k);
        lemma_dec_value_concat(zeros(k), s);
        assert(dec_value(zeros(k)) * pow10(s.len()) == 0) by (nonlinear_arith)
            requires
                dec_value(zeros(k)) == 0,
        ;
        let p = zero_pad(s, w);
        assert forall|i: int| 0 <= i < p.len() implies is_dec_digit(#[trigger] p[i]) by {
            if i < k {
                assert(p[i] == zeros(k)[i]);
            } else {
                assert(p[i] == s[i - k]);
            }
        }
    }
}

/// Lexicographic (code-point) order on character sequences, the order
/// `String` comparison gives.
pub open spec fn chars_lt(a: Seq<char>, b: Seq<char>) -> bool
    decreases a.len(),
{
    if b.len() == 0 {
        false
    } else if a.len() == 0 {
        true
    } else if a[0] != b[0] {
        (a[0] as int) < (b[0] as int)
    } else {
        chars_lt(a.skip(1), b.skip(1))
    }
}

/// Any two character sequences are ordered or equal.
pub proof fn lemma_chars_lt_connex(a: Seq<char>, b: Seq<char>)
    ensures
        chars_lt(a, b) || chars_lt(b, a) || a == b,
    decreases a.len(),
{
    if b.len() == 0 {
        if a.len() == 0 {
            assert(a =~= b);
        }
    } else if a.len() == 0 {
    } else if a[0] != b[0] {
    } else {
        lemma_chars_lt_connex(a.skip(1), b.skip(1));
        if a.skip(1) == b.skip(1) {
            assert(a.skip(1).len() == a.len() - 1);
            assert(b.skip(1).len() == b.len() - 1);
            assert(a.len() == b.len());
            assert forall|i: int| 0 <= i < a.len() implies a[i] == b[i] by {
                if i >= 1 {
                    assert(a[i] == a.skip(1)[i - 1]);
                    assert(b[i] == b.skip(1)[i - 1]);
                }
            }
            assert(a =~= b);
        }
    }
}

/// Lexicographic order is irreflexive and asymmetric.
pub proof fn lemma_chars_lt_asymmetric(a: Seq<char>, b: Seq<char>)
    ensures
        !(chars_lt(a, b) && chars_lt(b, a)),
        !chars_lt(a, a),
    decreases a.len(),
{
    if a.len() > 0 && b.len() > 0 && a[0] == b[0] {
        lemma_chars_lt_asymmetric(a.skip(1), b.skip(1));
    }
    if a.len() > 0 {
        lemma_chars_lt_asymmetric(a.skip(1), a.skip(1));
    }
}

/// Lexicographic order is transitive.
pub proof fn lemma_chars_lt_transitive(a: Seq<char>, b: Seq<char>, c: Seq<char>)
    requires
        chars_lt(a, b),
        chars_lt(b, c),
    ensures
        chars_lt(a, c),
    decreases a.len(),
{
    if a.len() == 0 {
    } else if c.len() == 0 {
    } else if b.len() == 0 {
    } else {
        if a[0] == b[0] && b[0] == c[0] {
            lemma_chars_lt_transitive(a.skip(1), b.skip(1), c.skip(1));
        }
    }
}

/// Parses a non-empty ASCII digit string as a 32-bit value; anything
/// else — empty, a stray character, a value past the range — is refused.
pub fn parse_dec_u32(s: &str) -> (r: Option<u32>)
    ensures
        r is Some <==> parses_as_dec(s@, u32::MAX as nat),
        r is Some ==> r->0 as nat == dec_value(s@),
{
    let n = s.unicode_len();
    if n == 0 {
        return None;
    }
    let mut acc: u64 = 0;
    let mut i: usize = 0;
    while i < n
        invariant
            0 <= i <= n,
            n == s@.len(),
            all_dec_digits(s@.take(i as int)),
            acc == dec_value(s@.take(i as int)),
            acc <= u32::MAX,
        decreases n - i,
    {
        let c = s.get_char(i);
        let u = c as u32;
        if u < 48 || u > 57 {
            return None;
        }
        let d = (u - 48) as u64;
        acc = acc * 10 + d;
        proof {
            assert(s@.take(i + 1).drop_last() =~= s@.take(i as int));
            assert(s@.take(i + 1).last() == s@[i as int]);
            assert(all_dec_digits(s@.take(i + 1))) by {
                assert(forall|j: int|
                    0 <= j < i + 1 ==> s@.take(i + 1)[j] == #[trigger] s@.take(i as int).push(
                        s@[i as int],
                    )[j]);
            }
        }
        if acc > 0xffff_ffff {
            proof {
                if parses_as_dec(s@, u32::MAX as nat) {
                    lemma_dec_value_take_le(s@, i + 1);
                }
            }
            return None;
        }
        i = i + 1;
    }
    proof {
        assert(s@.take(n as int) =~= s@);
    }
    Some(acc as u32)
}

/// Parses a non-empty ASCII digit string as an 8-bit value.
pub fn parse_dec_u8(s: &str) -> (r: Option<u8>)
    ensures
        r is Some <==> parses_as_dec(s@, u8::MAX as nat),
        r is Some ==> r->0 as nat == dec_value(s@),
{
    match parse_dec_u32(s) {
        Some(v) => if v <= 255 {
            Some(v as u8)
        } else {
            None
        },
        None => None,
    }
}

/// The one-character string of a digit below ten.
fn digit_str(d: u8) -> (s: &'static str)
    requires
        d < 10,
    ensures
        s@ =~= seq![digit_char(d as nat)],
{
    proof {
        reveal_strlit("0");
        reveal_strlit("1");
        reveal_strlit("2");
        reveal_strlit("3");
        reveal_strlit("4");
        reveal_strlit("5");
        reveal_strlit("6");
        reveal_strlit("7");
        reveal_strlit("8");
        reveal_strlit("9");
    }
    match d {
        0 => "0",
        1 => "1",
        2 => "2",
        3 => "3",
        4 => "4",
        5 => "5",
        6 => "6",
        7 => "7",
        8 => "8",
        _ => "9",
    }
}

/// Renders `n` in decimal, without leading zeros.
pub fn u32_to_dec(n: u32) -> (s: String)
    ensures
        s@ == dec_rep(n as nat),
    decreases n,
{
    if n < 10 {
        let mut s = String::new();
        s.append(digit_str(n as u8));
        proof {
            assert(s@ =~= dec_rep(n as nat));
        }
        s
    } else {
        let mut s = u32_to_dec(n / 10);
        s.append(digit_str((n % 10) as u8));
        proof {
            assert(s@ =~= dec_rep(n as nat));
        }
        s
    }
}

/// Renders `n` in decimal, left-padded with zeros to at least `w` characters.
pub fn u32_to_dec_padded(n: u32, w: usize) -> (s: String)
    ensures
        s@ == zero_pad(dec_rep(n as nat), w as nat),
{
    let d = u32_to_dec(n);
    let len = d.as_str().unicode_len();
    let mut s = String::new();
    let mut i: usize = len;
    while i < w
        invariant
            len <= i,
            i <= w || i == len,
            s@ =~= zeros((i - len) as nat),
        decreases w - i,
    {
        s.append(digit_str(0));
        proof {
            assert(s@ =~= zeros((i + 1 - len) as nat));
        }
        i = i + 1;
    }
    s.append(d.as_str());
    proof {
        if len >= w {
            assert(s@ =~= dec_rep(n as nat));
        } else {
            assert(s@ =~= zeros((w - len) as nat) + dec_rep(n as nat));
        }
    }
    s
}

/// Whether `a` orders strictly before `b` lexicographically.
pub fn str_lt(a: &str, b: &str) -> (r: bool)
    ensures
        r == chars_lt(a@, b@),
{
    let alen = a.unicode_len();
    let blen = b.unicode_len();
    let mut i: usize = 0;
    proof {
        assert(a@.skip(0) =~= a@);
        assert(b@.skip(0) =~= b@);
    }
    while i < alen && i < blen
        invariant
            0 <= i,
            i <= alen,
            i <= blen,
            alen == a@.len(),
            blen == b@.len(),
            chars_lt(a@, b@) == chars_lt(a@.skip(i as int), b@.skip(i as int)),
            chars_lt(b@, a@) == chars_lt(b@.skip(i as int), a@.skip(i as int)),
        decreases alen - i,
    {
        let ca = a.get_char(i);
        let cb = b.get_char(i);
        proof {
            assert(a@.skip(i as int)[0] == a@[i as int]);
            assert(b@.skip(i as int)[0] == b@[i as int]);
            assert(a@.skip(i as int).skip(1) =~= a@.skip(i + 1));
            assert(b@.skip(i as int).skip(1) =~= b@.skip(i + 1));
        }
        if ca != cb {
            return (ca as u32) < (cb as u32);
        }
        i = i + 1;
    }
    proof {
        assert(a@.skip(i as int).len() == alen - i);
        assert(b@.skip(i as int).len() == blen - i);
    }
    alen < blen
}

} // verus!

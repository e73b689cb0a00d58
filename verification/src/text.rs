//! Character-level helpers shared by the assembler, the disassembler and
//! the store: decimal and hexadecimal rendering and parsing, with exact
//! specifications, and the two trusted conversions between `String` and
//! `Vec<char>`.

use vstd::prelude::*;

verus! {

/// The whitespace characters the assembly grammar recognizes between
/// tokens (line breaks never occur inside a line).
pub open spec fn is_space_char(c: char) -> bool {
    c == ' ' || c == '\t' || c == '\r'
}

/// Executable twin of [`is_space_char`].
pub fn is_space(c: char) -> (r: bool)
    ensures
        r == is_space_char(c),
{
    c == ' ' || c == '\t' || c == '\r'
}

/// The decimal digit character for `d` (meaningful for `0 <= d < 10`).
pub open spec fn dec_digit_char(d: int) -> char {
    if d == 0 { '0' }
    else if d == 1 { '1' }
    else if d == 2 { '2' }
    else if d == 3 { '3' }
    else if d == 4 { '4' }
    else if d == 5 { '5' }
    else if d == 6 { '6' }
    else if d == 7 { '7' }
    else if d == 8 { '8' }
    else if d == 9 { '9' }
    else { '?' }
}

/// The lowercase hexadecimal digit character for `d` (meaningful for
/// `0 <= d < 16`).
pub open spec fn hex_digit_char(d: int) -> char {
    if d < 10 { dec_digit_char(d) }
    else if d == 10 { 'a' }
    else if d == 11 { 'b' }
    else if d == 12 { 'c' }
    else if d == 13 { 'd' }
    else if d == 14 { 'e' }
    else if d == 15 { 'f' }
    else { '?' }
}

/// The numeric value of a decimal digit character, or -1 if `c` is not one.
pub open spec fn dec_digit_val(c: char) -> int {
    if c == '0' { 0 }
    else if c == '1' { 1 }
    else if c == '2' { 2 }
    else if c == '3' { 3 }
    else if c == '4' { 4 }
    else if c == '5' { 5 }
    else if c == '6' { 6 }
    else if c == '7' { 7 }
    else if c == '8' { 8 }
    else if c == '9' { 9 }
    else { -1 }
}

/// The numeric value of a hexadecimal digit character (either case), or -1.
pub open spec fn hex_digit_val(c: char) -> int {
    if dec_digit_val(c) >= 0 { dec_digit_val(c) }
    else if c == 'a' || c == 'A' { 10 }
    else if c == 'b' || c == 'B' { 11 }
    else if c == 'c' || c == 'C' { 12 }
    else if c == 'd' || c == 'D' { 13 }
    else if c == 'e' || c == 'E' { 14 }
    else if c == 'f' || c == 'F' { 15 }
    else { -1 }
}

/// The usual decimal rendering of `n`, without sign or padding.
pub open spec fn dec_rep(n: nat) -> Seq<char>
    decreases n,
{
    if n < 10 {
        seq![dec_digit_char(n as int)]
    } else {
        dec_rep(n / 10).push(dec_digit_char((n % 10) as int))
    }
}

/// The decimal rendering of a signed value: a `-` sign for negatives,
/// then the magnitude.
pub open spec fn dec_rep_signed(i: int) -> Seq<char> {
    if i < 0 {
        seq!['-'] + dec_rep((-i) as nat)
    } else {
        dec_rep(i as nat)
    }
}

/// The fixed-width lowercase hexadecimal rendering of `n` with `width`
/// digits, most significant first.
pub open spec fn hex_rep(n: nat, width: nat) -> Seq<char>
    decreases width,
{
    if width == 0 {
        Seq::empty()
    } else {
        hex_rep(n / 16, (width - 1) as nat).push(hex_digit_char((n % 16) as int))
    }
}

/// The value of a decimal numeral, reading left to right (meaningful when
/// every character is a decimal digit).
pub open spec fn dec_val_of(s: Seq<char>) -> int
    decreases s.len(),
{
    if s.len() == 0 {
        0
    } else {
        dec_val_of(s.drop_last()) * 10 + dec_digit_val(s.last())
    }
}

/// True when every character of `s` is a decimal digit.
pub open spec fn all_dec_digits(s: Seq<char>) -> bool {
    forall|i: int| 0 <= i < s.len() ==> dec_digit_val(#[trigger] s[i]) >= 0
}

/// Executable decimal digit rendering.
fn dec_digit(d: u128) -> (r: char)
    requires
        d < 10,
    ensures
        r == dec_digit_char(d as int),
{
    if d == 0 { '0' }
    else if d == 1 { '1' }
    else if d == 2 { '2' }
    else if d == 3 { '3' }
    else if d == 4 { '4' }
    else if d == 5 { '5' }
    else if d == 6 { '6' }
    else if d == 7 { '7' }
    else if d == 8 { '8' }
    else { '9' }
}

/// Executable hexadecimal digit rendering.
fn hex_digit(d: u128) -> (r: char)
    requires
        d < 16,
    ensures
        r == hex_digit_char(d as int),
{
    if d < 10 { dec_digit(d) }
    else if d == 10 { 'a' }
    else if d == 11 { 'b' }
    else if d == 12 { 'c' }
    else if d == 13 { 'd' }
    else if d == 14 { 'e' }
    else { 'f' }
}

/// Renders `n` in decimal.
pub fn dec_chars(n: u128) -> (r: Vec<char>)
    ensures
        r@ == dec_rep(n as nat),
    decreases n,
{
    if n < 10 {
        let mut v: Vec<char> = Vec::new();
        v.push(dec_digit(n));
        assert(v@ =~= dec_rep(n as nat));
        v
    } else {
        let mut v = dec_chars(n / 10);
        v.push(dec_digit(n % 10));
        assert(v@ =~= dec_rep(n as nat));
        v
    }
}

/// Renders a signed value in decimal, with a leading `-` for negatives.
pub fn dec_chars_signed(i: i128) -> (r: Vec<char>)
    ensures
        r@ == dec_rep_signed(i as int),
{
    if i >= 0 {
        dec_chars(i as u128)
    } else {
        let mag: u128 = if i == i128::MIN {
            170141183460469231731687303715884105728u128
        } else {
            (-i) as u128
        };
        assert(mag == -(i as int));
        let digits = dec_chars(mag);
        let mut v: Vec<char> = Vec::new();
        v.push('-');
        let mut k: usize = 0;
        while k < digits.len()
            invariant
                k <= digits.len(),
                v@ == seq!['-'] + digits@.take(k as int),
            decreases digits.len() - k,
        {
            v.push(digits[k]);
            k = k + 1;
            assert(v@ =~= seq!['-'] + digits@.take(k as int));
        }
        assert(digits@.take(digits@.len() as int) =~= digits@);
        v
    }
}

/// Renders `n` as `width` lowercase hexadecimal digits.
pub fn hex_chars(n: u128, width: usize) -> (r: Vec<char>)
    ensures
        r@ == hex_rep(n as nat, width as nat),
    decreases width,
{
    if width == 0 {
        let v: Vec<char> = Vec::new();
        assert(v@ =~= hex_rep(n as nat, 0));
        v
    } else {
        let mut v = hex_chars(n / 16, width - 1);
        v.push(hex_digit(n % 16));
        assert(v@ =~= hex_rep(n as nat, width as nat));
        v
    }
}

/// Parses an unsigned decimal numeral. Returns `Some` exactly when `s` is
/// nonempty, every character is a decimal digit, and the value fits in
/// `u128`.
pub fn parse_dec_u128(s: &Vec<char>) -> (r: Option<u128>)
    ensures
        match r {
            Some(v) => {
                &&& s@.len() > 0
                &&& all_dec_digits(s@)
                &&& v == dec_val_of(s@)
            },
            None => {
                ||| s@.len() == 0
                ||| !all_dec_digits(s@)
                ||| dec_val_of(s@) > u128::MAX
            },
        },
{
    if s.len() == 0 {
        return None;
    }
    let mut acc: u128 = 0;
    let mut k: usize = 0;
    while k < s.len()
        invariant
            k <= s.len(),
            s@.len() > 0,
            all_dec_digits(s@.take(k as int)),
            acc == dec_val_of(s@.take(k as int)),
        decreases s.len() - k,
    {
        let c = s[k];
        let d = dec_val(c);
        proof {
            assert(s@.take(k as int + 1).drop_last() =~= s@.take(k as int));
            assert(s@.take(k as int + 1).last() == s@[k as int]);
        }
        if d < 0 {
            proof {
                assert(dec_digit_val(s@[k as int]) < 0);
            }
            return None;
        }
        if acc > (u128::MAX - d as u128) / 10 {
            proof {
                let q = (u128::MAX - d as u128) / 10;
                assert(acc * 10 >= (q + 1) * 10);
                assert(q * 10 + 10 > u128::MAX - d as u128);
                assert(dec_val_of(s@.take(k as int + 1)) > u128::MAX);
                if all_dec_digits(s@) {
                    lemma_dec_val_prefix(s@, k as int + 1);
                }
            }
            return None;
        }
        acc = acc * 10 + d as u128;
        k = k + 1;
    }
    proof {
        assert(s@.take(s@.len() as int) =~= s@);
    }
    Some(acc)
}

/// Executable decimal digit value; -1 for non-digits.
pub fn dec_val(c: char) -> (r: i8)
    ensures
        r == dec_digit_val(c),
{
    match c {
        '0' => 0,
        '1' => 1,
        '2' => 2,
        '3' => 3,
        '4' => 4,
        '5' => 5,
        '6' => 6,
        '7' => 7,
        '8' => 8,
        '9' => 9,
        _ => -1,
    }
}

/// Executable hexadecimal digit value; -1 for non-digits.
pub fn hex_val(c: char) -> (r: i8)
    ensures
        r == hex_digit_val(c),
{
    let d = dec_val(c);
    if d >= 0 {
        d
    } else {
        match c {
            'a' | 'A' => 10,
            'b' | 'B' => 11,
            'c' | 'C' => 12,
            'd' | 'D' => 13,
            'e' | 'E' => 14,
            'f' | 'F' => 15,
            _ => -1,
        }
    }
}

/// A decimal numeral's value never goes below the value of any prefix.
pub proof fn lemma_dec_val_prefix(s: Seq<char>, j: int)
    requires
        0 <= j <= s.len(),
        all_dec_digits(s),
    ensures
        dec_val_of(s.take(j)) <= dec_val_of(s),
    decreases s.len() - j,
{
    lemma_dec_val_nonneg(s.take(j));
    if j < s.len() {
        assert(s.take(j + 1).drop_last() =~= s.take(j));
        assert(dec_digit_val(s.take(j + 1).last()) >= 0) by {
            assert(dec_digit_val(s[j]) >= 0);
        }
        assert(dec_val_of(s.take(j)) * 10 >= dec_val_of(s.take(j))) by (nonlinear_arith)
            requires
                dec_val_of(s.take(j)) >= 0,
        ;
        lemma_dec_val_prefix(s, j + 1);
    } else {
        assert(s.take(j) =~= s);
    }
}

/// A string of decimal digits never has a negative value.
pub proof fn lemma_dec_val_nonneg(s: Seq<char>)
    requires
        all_dec_digits(s),
    ensures
        dec_val_of(s) >= 0,
    decreases s.len(),
{
    if s.len() > 0 {
        assert(all_dec_digits(s.drop_last()));
        lemma_dec_val_nonneg(s.drop_last());
        assert(dec_digit_val(s.last()) >= 0) by {
            assert(dec_digit_val(s[s.len() - 1]) >= 0);
        }
        assert(dec_val_of(s.drop_last()) * 10 >= 0) by (nonlinear_arith)
            requires
                dec_val_of(s.drop_last()) >= 0,
        ;
    }
}

/// Collects the characters of a string slice.
///
/// Relies on `str::chars` together with `Iterator::collect` for
/// `Vec<char>`: the characters of the string, in order.
#[verifier::external_body]
pub fn chars_of(s: &str) -> (r: Vec<char>)
    ensures
        r@ == s@,
{
    s.chars().collect()
}

/// Builds a `String` from a sequence of characters.
///
/// Relies on `String`'s `FromIterator<char>` implementation: the resulting
/// string holds exactly the given characters, in order.
#[verifier::external_body]
pub fn string_from_chars(v: &Vec<char>) -> (r: String)
    ensures
        r@ == v@,
{
    v.iter().collect()
}

/// Equality of two string slices, by characters.
pub fn str_eq(a: &str, b: &str) -> (r: bool)
    ensures
        r == (a@ == b@),
{
    let ca = chars_of(a);
    let cb = chars_of(b);
    if ca.len() != cb.len() {
        proof {
            assert(a@.len() != b@.len());
        }
        return false;
    }
    let mut k: usize = 0;
    while k < ca.len()
        invariant
            k <= ca@.len(),
            ca@ == a@,
            cb@ == b@,
            ca@.len() == cb@.len(),
            forall|i: int| 0 <= i < k ==> a@[i] == b@[i],
        decreases ca@.len() - k,
    {
        if ca[k] != cb[k] {
            proof {
                assert(a@[k as int] != b@[k as int]);
            }
            return false;
        }
        k = k + 1;
    }
    proof {
        assert(a@ =~= b@);
    }
    true
}

/// Equality of a character vector against a string slice.
pub fn chars_eq_str(v: &Vec<char>, s: &str) -> (r: bool)
    ensures
        r == (v@ == s@),
{
    let cs = chars_of(s);
    if v.len() != cs.len() {
        proof {
            assert(v@.len() != s@.len());
        }
        return false;
    }
    let mut k: usize = 0;
    while k < v.len()
        invariant
            k <= v@.len(),
            cs@ == s@,
            v@.len() == s@.len(),
            forall|i: int| 0 <= i < k ==> v@[i] == s@[i],
        decreases v@.len() - k,
    {
        if v[k] != cs[k] {
            proof {
                assert(v@[k as int] != s@[k as int]);
            }
            return false;
        }
        k = k + 1;
    }
    proof {
        assert(v@ =~= s@);
    }
    true
}

/// Copies the characters of `v` between `lo` and `hi`.
pub fn sub_chars(v: &Vec<char>, lo: usize, hi: usize) -> (r: Vec<char>)
    requires
        lo <= hi <= v@.len(),
    ensures
        r@ == v@.subrange(lo as int, hi as int),
{
    let mut out: Vec<char> = Vec::new();
    let mut k: usize = lo;
    while k < hi
        invariant
            lo <= k <= hi <= v@.len(),
            out@ == v@.subrange(lo as int, k as int),
        decreases hi - k,
    {
        out.push(v[k]);
        proof {
            assert(v@.subrange(lo as int, k as int + 1) =~= v@.subrange(lo as int, k as int).push(
                v@[k as int],
            ));
        }
        k = k + 1;
    }
    out
}

} // verus!

//! Small verified helpers over strings and ASCII bytes that the rest of the
//! library shares: character-level string equality, decimal rendering and
//! parsing, and conversion of ASCII bytes into a `String`.

use vstd::prelude::*;

verus! {

/// Character-for-character equality of two string slices.
pub fn str_eq(a: &str, b: &str) -> (r: bool)
    ensures
        r == (a@ == b@),
{
    let alen = a.unicode_len();
    let blen = b.unicode_len();
    if alen != blen {
        assert(a@.len() != b@.len());
        return false;
    }
    let mut i: usize = 0;
    while i < alen
        invariant
            alen == a@.len(),
            blen == b@.len(),
            alen == blen,
            i <= alen,
            forall|k: int| 0 <= k < i ==> a@[k] == b@[k],
        decreases alen - i,
    {
        if a.get_char(i) != b.get_char(i) {
            return false;
        }
        i += 1;
    }
    proof {
        assert(a@ =~= b@);
    }
    true
}

/// Byte-for-byte equality of two byte vectors.
pub fn byte_vecs_eq(a: &Vec<u8>, b: &Vec<u8>) -> (r: bool)
    ensures
        r == (a@ == b@),
{
    if a.len() != b.len() {
        return false;
    }
    let mut i: usize = 0;
    while i < a.len()
        invariant
            a@.len() == b@.len(),
            i <= a@.len(),
            forall|k: int| 0 <= k < i ==> a@[k] == b@[k],
        decreases a@.len() - i,
    {
        if a[i] != b[i] {
            return false;
        }
        i += 1;
    }
    proof {
        assert(a@ =~= b@);
    }
    true
}

/// The sequence of decimal digit characters of `n`, most significant first.
pub open spec fn spec_decimal(n: nat) -> Seq<char>
    decreases n,
{
    if n < 10 {
        seq![digit_char(n)]
    } else {
        spec_decimal(n / 10).push(digit_char(n % 10))
    }
}

pub open spec fn digit_char(d: nat) -> char {
    if d == 0 { '0' }
    else if d == 1 { '1' }
    else if d == 2 { '2' }
    else if d == 3 { '3' }
    else if d == 4 { '4' }
    else if d == 5 { '5' }
    else if d == 6 { '6' }
    else if d == 7 { '7' }
    else if d == 8 { '8' }
    else { '9' }
}

/// The numeric value of a decimal digit character, or 10 when it is none.
pub open spec fn digit_value(c: char) -> nat {
    if c == '0' { 0 }
    else if c == '1' { 1 }
    else if c == '2' { 2 }
    else if c == '3' { 3 }
    else if c == '4' { 4 }
    else if c == '5' { 5 }
    else if c == '6' { 6 }
    else if c == '7' { 7 }
    else if c == '8' { 8 }
    else if c == '9' { 9 }
    else { 10 }
}

fn digit_to_char(d: u64) -> (c: char)
    requires
        d < 10,
    ensures
        c == digit_char(d as nat),
{
    if d == 0 { '0' }
    else if d == 1 { '1' }
    else if d == 2 { '2' }
    else if d == 3 { '3' }
    else if d == 4 { '4' }
    else if d == 5 { '5' }
    else if d == 6 { '6' }
    else if d == 7 { '7' }
    else if d == 8 { '8' }
    else { '9' }
}

/// Renders `n` in decimal as a sequence of characters.
pub fn decimal_chars(n: u64) -> (r: Vec<char>)
    ensures
        r@ == spec_decimal(n as nat),
    decreases n,
{
    if n < 10 {
        let mut v: Vec<char> = Vec::new();
        v.push(digit_to_char(n));
        v
    } else {
        let mut v = decimal_chars(n / 10);
        v.push(digit_to_char(n % 10));
        v
    }
}

/// Builds a `String` out of a sequence of characters.
pub fn chars_to_string(v: &Vec<char>) -> (r: String)
    ensures
        r@ == v@,
{
    let mut s = String::new();
    let mut i: usize = 0;
    while i < v.len()
        invariant
            i <= v@.len(),
            s@ == v@.subrange(0, i as int),
        decreases v@.len() - i,
    {
        s = append_char(s, v[i]);
        i += 1;
        proof {
            assert(s@ =~= v@.subrange(0, i as int));
        }
    }
    proof {
        assert(s@ =~= v@);
    }
    s
}

/// Relies on `String::push`: appends exactly one character.
#[verifier::external_body]
fn append_char(s: String, c: char) -> (r: String)
    ensures
        r@ == s@.push(c),
{
    let mut s = s;
    s.push(c);
    s
}

/// Renders `n` in decimal.
pub fn u64_to_string(n: u64) -> (r: String)
    ensures
        r@ == spec_decimal(n as nat),
{
    let v = decimal_chars(n);
    chars_to_string(&v)
}

/// The decimal rendering of `n` left-padded with zeroes to `width` characters;
/// where the rendering is already that long, it stands unpadded.
pub open spec fn spec_zero_padded(n: nat, width: nat) -> Seq<char> {
    if spec_decimal(n).len() >= width {
        spec_decimal(n)
    } else {
        seq_repeat('0', (width - spec_decimal(n).len()) as nat) + spec_decimal(n)
    }
}

pub open spec fn seq_repeat(c: char, count: nat) -> Seq<char> {
    Seq::new(count, |i: int| c)
}

/// Renders `n` in decimal, zero-padded on the left to `width` characters.
pub fn u64_to_padded_string(n: u64, width: usize) -> (r: String)
    ensures
        r@ == spec_zero_padded(n as nat, width as nat),
{
    let digits = decimal_chars(n);
    let mut v: Vec<char> = Vec::new();
    if digits.len() < width {
        let pad = width - digits.len();
        let mut i: usize = 0;
        while i < pad
            invariant
                i <= pad,
                v@ =~= seq_repeat('0', i as nat),
            decreases pad - i,
        {
            v.push('0');
            i += 1;
            proof {
                assert(v@ =~= seq_repeat('0', i as nat));
            }
        }
    }
    let mut j: usize = 0;
    let ghost base = v@;
    while j < digits.len()
        invariant
            j <= digits@.len(),
            digits@ == spec_decimal(n as nat),
            v@ =~= base + digits@.subrange(0, j as int),
        decreases digits@.len() - j,
    {
        v.push(digits[j]);
        j += 1;
        proof {
            assert(v@ =~= base + digits@.subrange(0, j as int));
        }
    }
    proof {
        assert(digits@.subrange(0, digits@.len() as int) =~= digits@);
        if digits@.len() >= width {
            assert(base =~= Seq::<char>::empty());
            assert(base + digits@ =~= digits@);
        }
    }
    chars_to_string(&v)
}

/// The value of a sequence of decimal digits, most significant first.
pub open spec fn spec_parse_decimal(s: Seq<char>) -> nat
    decreases s.len(),
{
    if s.len() == 0 {
        0
    } else {
        spec_parse_decimal(s.drop_last()) * 10 + digit_value(s.last())
    }
}

pub open spec fn all_digits(s: Seq<char>) -> bool {
    forall|i: int| 0 <= i < s.len() ==> digit_value(s[i]) < 10
}

/// Parses the character range `[from, to)` of `s` as a decimal number.
/// Returns `None` when the range is empty, holds a non-digit, or the value
/// does not fit in a `u64`.
pub fn parse_decimal_range(s: &str, from: usize, to: usize) -> (r: Option<u64>)
    requires
        from <= to <= s@.len(),
    ensures
        r matches Some(n) ==> {
            &&& to > from
            &&& all_digits(s@.subrange(from as int, to as int))
            &&& n == spec_parse_decimal(s@.subrange(from as int, to as int))
        },
        r is None ==> (to == from || !all_digits(s@.subrange(from as int, to as int))
            || spec_parse_decimal(s@.subrange(from as int, to as int)) > u64::MAX),
{
    if from == to {
        return None;
    }
    let mut acc: u64 = 0;
    let mut i: usize = from;
    while i < to
        invariant
            from <= i <= to <= s@.len(),
            all_digits(s@.subrange(from as int, i as int)),
            acc == spec_parse_decimal(s@.subrange(from as int, i as int)),
        decreases to - i,
    {
        let c = s.get_char(i);
        let d = digit_of_char(c);
        if d >= 10 {
            proof {
                assert(s@.subrange(from as int, to as int)[i - from] == c);
            }
            return None;
        }
        if acc > (u64::MAX - d) / 10 {
            proof {
                let whole = s@.subrange(from as int, to as int);
                let part = s@.subrange(from as int, (i + 1) as int);
                lemma_parse_decimal_prefix_monotonic(whole, (i + 1 - from) as int);
                assert(part =~= whole.subrange(0, (i + 1 - from) as int));
                assert(part.drop_last() =~= s@.subrange(from as int, i as int));
            }
            return None;
        }
        let new_acc = acc * 10 + d;
        proof {
            let part = s@.subrange(from as int, (i + 1) as int);
            assert(part.drop_last() =~= s@.subrange(from as int, i as int));
            assert(part.last() == c);
            assert(forall|k: int| 0 <= k < part.len() ==> part[k] == s@.subrange(
                from as int, to as int)[k]);
        }
        acc = new_acc;
        i += 1;
    }
    proof {
        assert(s@.subrange(from as int, i as int) =~= s@.subrange(from as int, to as int));
    }
    Some(acc)
}

fn digit_of_char(c: char) -> (d: u64)
    ensures
        d == digit_value(c),
{
    if c == '0' { 0 }
    else if c == '1' { 1 }
    else if c == '2' { 2 }
    else if c == '3' { 3 }
    else if c == '4' { 4 }
    else if c == '5' { 5 }
    else if c == '6' { 6 }
    else if c == '7' { 7 }
    else if c == '8' { 8 }
    else if c == '9' { 9 }
    else { 10 }
}

/// A later digit can only grow the parsed value.
proof fn lemma_parse_decimal_prefix_monotonic(s: Seq<char>, k: int)
    requires
        0 <= k <= s.len(),
    ensures
        spec_parse_decimal(s.subrange(0, k)) <= spec_parse_decimal(s),
    decreases s.len() - k,
{
    if k < s.len() {
        lemma_parse_decimal_prefix_monotonic(s, k + 1);
        let shorter = s.subrange(0, k);
        let longer = s.subrange(0, k + 1);
        assert(longer.drop_last() =~= shorter);
        assert(spec_parse_decimal(shorter) <= spec_parse_decimal(longer));
    } else {
        assert(s.subrange(0, k) =~= s);
    }
}

} // verus!

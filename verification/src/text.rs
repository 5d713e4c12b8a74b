//! Byte-level text utilities: decimal rendering and parsing, substring
//! search, ASCII case folding, and the conversion of ASCII byte vectors
//! into `String`s. All pipeline text (endpoint lines, handshake heads,
//! judge bodies, the JSON form) is treated as bytes here.

use vstd::prelude::*;

verus! {

/// Whether a byte is an ASCII decimal digit.
pub open spec fn is_digit(b: u8) -> bool {
    48 <= b <= 57
}

/// The numeric value of an ASCII digit byte.
pub open spec fn digit_val(b: u8) -> nat {
    (b - 48) as nat
}

/// All bytes of the sequence are ASCII digits.
pub open spec fn all_digits(s: Seq<u8>) -> bool {
    forall|i: int| 0 <= i < s.len() ==> is_digit(#[trigger] s[i])
}

/// The value of a big-endian decimal digit string (empty string is 0).
pub open spec fn digits_val(s: Seq<u8>) -> nat
    decreases s.len(),
{
    if s.len() == 0 {
        0
    } else {
        digits_val(s.drop_last()) * 10 + digit_val(s.last())
    }
}

/// The canonical decimal rendering of a natural number, without leading
/// zeros (a single `0` for zero).
pub open spec fn spec_render_nat(n: nat) -> Seq<u8>
    decreases n,
{
    if n < 10 {
        seq![(48 + n) as u8]
    } else {
        spec_render_nat(n / 10).push((48 + n % 10) as u8)
    }
}

pub proof fn lemma_render_nat_digits(n: nat)
    ensures
        spec_render_nat(n).len() >= 1,
        all_digits(spec_render_nat(n)),
        digits_val(spec_render_nat(n)) == n,
        spec_render_nat(n)[0] != 48 || n < 10,
    decreases n,
{
    if n < 10 {
        assert(spec_render_nat(n) =~= Seq::<u8>::empty().push((48 + n) as u8));
        lemma_digits_val_push(Seq::<u8>::empty(), (48 + n) as u8);
    } else {
        lemma_render_nat_digits(n / 10);
        let s = spec_render_nat(n);
        assert(s =~= spec_render_nat(n / 10).push((48 + n % 10) as u8));
        lemma_digits_val_push(spec_render_nat(n / 10), (48 + n % 10) as u8);
        assert(digits_val(s) == (n / 10) * 10 + n % 10);
        assert((n / 10) * 10 + n % 10 == n) by (nonlinear_arith);
        assert(all_digits(s)) by {
            assert(forall|i: int|
                0 <= i < s.len() - 1 ==> s[i] == spec_render_nat(n / 10)[i]);
        }
    }
}

/// Bounds on the length of a decimal rendering.
pub proof fn lemma_render_nat_len(n: nat, p10: nat, digits: nat)
    requires
        n < p10,
        pow10(digits) == p10,
        digits >= 1,
    ensures
        spec_render_nat(n).len() <= digits,
    decreases digits,
{
    if n < 10 {
    } else {
        assert(digits >= 2) by {
            lemma_pow10_vals();
        }
        assert(pow10(digits) == pow10((digits - 1) as nat) * 10);
        assert(n / 10 < pow10((digits - 1) as nat)) by (nonlinear_arith)
            requires
                n < pow10((digits - 1) as nat) * 10,
        ;
        lemma_render_nat_len(n / 10, pow10((digits - 1) as nat), (digits - 1) as nat);
    }
}

/// Powers of ten.
pub open spec fn pow10(k: nat) -> nat
    decreases k,
{
    if k == 0 {
        1
    } else {
        pow10((k - 1) as nat) * 10
    }
}

/// The small powers of ten, written out.
pub proof fn lemma_pow10_vals()
    ensures
        pow10(1) == 10,
        pow10(2) == 100,
        pow10(3) == 1000,
        pow10(4) == 10000,
        pow10(5) == 100000,
        pow10(6) == 1000000,
        pow10(8) == 100000000,
        pow10(9) == 1000000000,
{
    reveal_with_fuel(pow10, 10);
}

/// Appending one more digit multiplies the value by ten.
pub proof fn lemma_digits_val_push(s: Seq<u8>, b: u8)
    ensures
        digits_val(s.push(b)) == digits_val(s) * 10 + digit_val(b),
{
    assert(s.push(b).drop_last() =~= s);
    assert(s.push(b).last() == b);
}

/// An upper bound on the value of a digit string from its length.
pub proof fn lemma_digits_val_bound(s: Seq<u8>)
    requires
        all_digits(s),
    ensures
        digits_val(s) < pow10(s.len()),
    decreases s.len(),
{
    if s.len() == 0 {
    } else {
        lemma_digits_val_bound(s.drop_last());
        assert(digit_val(s.last()) <= 9);
        assert(digits_val(s.drop_last()) * 10 + 9 < pow10((s.len() - 1) as nat) * 10)
            by (nonlinear_arith)
            requires
                digits_val(s.drop_last()) < pow10((s.len() - 1) as nat),
        ;
    }
}

/// Appends the decimal rendering of `n` to `out`.
pub fn push_u64(out: &mut Vec<u8>, n: u64)
    ensures
        final(out)@ == old(out)@ + spec_render_nat(n as nat),
    decreases n,
{
    if n < 10 {
        out.push((48 + n) as u8);
        proof {
            assert(final(out)@ =~= old(out)@ + spec_render_nat(n as nat));
        }
    } else {
        push_u64(out, n / 10);
        out.push((48 + n % 10) as u8);
        proof {
            assert(final(out)@ =~= old(out)@ + spec_render_nat(n as nat));
        }
    }
}

/// Reads the value of a digit string; the caller bounds its length so the
/// value fits in `u32`.
pub fn digits_value_u32(s: &[u8], start: usize, end: usize) -> (r: u32)
    requires
        0 <= start <= end <= s@.len(),
        all_digits(s@.subrange(start as int, end as int)),
        end - start <= 9,
    ensures
        r == digits_val(s@.subrange(start as int, end as int)),
{
    let mut i: usize = start;
    let mut val: u32 = 0;
    proof {
        assert(s@.subrange(start as int, start as int) =~= Seq::<u8>::empty());
    }
    while i < end
        invariant
            start <= i <= end <= s@.len(),
            end - start <= 9,
            all_digits(s@.subrange(start as int, end as int)),
            val == digits_val(s@.subrange(start as int, i as int)),
            val < pow10((i - start) as nat),
        decreases end - i,
    {
        let b = s[i];
        proof {
            assert(s@.subrange(start as int, end as int)[i - start] == b);
            assert(is_digit(b));
            lemma_digits_val_push(s@.subrange(start as int, i as int), b);
            assert(s@.subrange(start as int, (i + 1) as int) =~= s@.subrange(
                start as int,
                i as int,
            ).push(b));
            lemma_pow10_vals();
            assert(pow10((i - start) as nat) <= pow10(8)) by {
                lemma_pow10_vals();
                lemma_pow10_increases((i - start) as nat, 8);
            }
        }
        val = val * 10 + (b - 48) as u32;
        i = i + 1;
    }
    val
}

/// The large powers of ten, written out.
pub proof fn lemma_pow10_vals_big()
    ensures
        pow10(13) == 10000000000000,
        pow10(14) == 100000000000000,
        pow10(17) == 100000000000000000,
        pow10(18) == 1000000000000000000,
        pow10(19) == 10000000000000000000,
{
    reveal_with_fuel(pow10, 20);
}

/// Reads the value of a digit string of at most nineteen digits, which
/// always fits.
pub fn digits_value_u64(s: &[u8], start: usize, end: usize) -> (r: u64)
    requires
        0 <= start <= end <= s@.len(),
        all_digits(s@.subrange(start as int, end as int)),
        end - start <= 19,
    ensures
        r == digits_val(s@.subrange(start as int, end as int)),
{
    let mut i: usize = start;
    let mut val: u64 = 0;
    proof {
        assert(s@.subrange(start as int, start as int) =~= Seq::<u8>::empty());
    }
    while i < end
        invariant
            start <= i <= end <= s@.len(),
            end - start <= 19,
            all_digits(s@.subrange(start as int, end as int)),
            val == digits_val(s@.subrange(start as int, i as int)),
            val < pow10((i - start) as nat),
        decreases end - i,
    {
        let b = s[i];
        proof {
            assert(s@.subrange(start as int, end as int)[i - start] == b);
            assert(is_digit(b));
            lemma_digits_val_push(s@.subrange(start as int, i as int), b);
            assert(s@.subrange(start as int, (i + 1) as int) =~= s@.subrange(
                start as int,
                i as int,
            ).push(b));
            lemma_pow10_vals_big();
            assert(pow10((i - start) as nat) <= pow10(18)) by {
                lemma_pow10_vals_big();
                lemma_pow10_increases((i - start) as nat, 18);
            }
        }
        val = val * 10 + (b - 48) as u64;
        i = i + 1;
    }
    val
}

/// Computes a small power of ten.
pub fn pow10_u64(w: usize) -> (r: u64)
    requires
        w <= 19,
    ensures
        r == pow10(w as nat),
{
    let mut r: u64 = 1;
    let mut k: usize = 0;
    while k < w
        invariant
            0 <= k <= w <= 19,
            r == pow10(k as nat),
        decreases w - k,
    {
        proof {
            lemma_pow10_vals_big();
            lemma_pow10_increases(k as nat, 18);
            assert(pow10((k + 1) as nat) == pow10(k as nat) * 10);
        }
        r = r * 10;
        k = k + 1;
    }
    r
}

/// `pow10` grows with its argument.
pub proof fn lemma_pow10_increases(a: nat, b: nat)
    requires
        a <= b,
    ensures
        pow10(a) <= pow10(b),
    decreases b,
{
    if a < b {
        lemma_pow10_increases(a, (b - 1) as nat);
        assert(pow10(b) == pow10((b - 1) as nat) * 10);
    }
}

/// Whether the range `[start, end)` of `s` consists of digits only.
pub fn check_all_digits(s: &[u8], start: usize, end: usize) -> (r: bool)
    requires
        0 <= start <= end <= s@.len(),
    ensures
        r == all_digits(s@.subrange(start as int, end as int)),
{
    let ghost part = s@.subrange(start as int, end as int);
    let mut i: usize = start;
    while i < end
        invariant
            start <= i <= end <= s@.len(),
            part == s@.subrange(start as int, end as int),
            forall|j: int| start <= j < i ==> is_digit(#[trigger] s@[j]),
        decreases end - i,
    {
        let b = s[i];
        if !(48 <= b && b <= 57) {
            proof {
                assert(part[i - start] == s@[i as int]);
            }
            return false;
        }
        i = i + 1;
    }
    proof {
        assert forall|k: int| 0 <= k < part.len() implies is_digit(#[trigger] part[k]) by {
            assert(part[k] == s@[start + k]);
        }
    }
    true
}

/// The first position of byte `c` in `s`, if any.
pub open spec fn find_byte(s: Seq<u8>, c: u8) -> Option<int>
    decreases s.len(),
{
    if s.len() == 0 {
        None
    } else if s[0] == c {
        Some(0)
    } else {
        match find_byte(s.drop_first(), c) {
            Some(i) => Some(i + 1),
            None => None,
        }
    }
}

/// `find_byte` returns the first occurrence, and `None` exactly when the
/// byte does not occur.
pub proof fn lemma_find_byte(s: Seq<u8>, c: u8)
    ensures
        match find_byte(s, c) {
            Some(i) => 0 <= i < s.len() && s[i] == c && forall|j: int| 0 <= j < i ==> s[j] != c,
            None => forall|j: int| 0 <= j < s.len() ==> s[j] != c,
        },
    decreases s.len(),
{
    if s.len() == 0 {
    } else if s[0] == c {
    } else {
        let rest = s.drop_first();
        lemma_find_byte(rest, c);
        match find_byte(rest, c) {
            Some(i) => {
                assert(s[i + 1] == rest[i]);
                assert forall|j: int| 0 <= j < i + 1 implies s[j] != c by {
                    if j > 0 {
                        assert(rest[j - 1] != c);
                        assert(s[j] == rest[j - 1]);
                    }
                }
            },
            None => {
                assert forall|j: int| 0 <= j < s.len() implies s[j] != c by {
                    if j > 0 {
                        assert(rest[j - 1] != c);
                        assert(s[j] == rest[j - 1]);
                    }
                }
            },
        }
    }
}

/// Uniqueness: any position whose prefix is `c`-free is the `find_byte`
/// result.
pub proof fn lemma_find_byte_is(s: Seq<u8>, c: u8, i: int)
    requires
        0 <= i < s.len(),
        s[i] == c,
        forall|j: int| 0 <= j < i ==> s[j] != c,
    ensures
        find_byte(s, c) == Some(i),
{
    lemma_find_byte(s, c);
    match find_byte(s, c) {
        Some(k) => {
            if k < i {
                assert(s[k] != c);
            } else if k > i {
                assert(s[i] != c);
            }
        },
        None => {
            assert(s[i] != c);
        },
    }
}

/// Finds the first occurrence of `c` in the range `[start, end)`.
pub fn find_byte_in(s: &[u8], c: u8, start: usize, end: usize) -> (r: Option<usize>)
    requires
        0 <= start <= end <= s@.len(),
    ensures
        match r {
            Some(i) => {
                &&& start <= i < end
                &&& s@[i as int] == c
                &&& find_byte(s@.subrange(start as int, end as int), c) == Some(i - start)
            },
            None => find_byte(s@.subrange(start as int, end as int), c) is None,
        },
{
    let ghost part = s@.subrange(start as int, end as int);
    let mut i: usize = start;
    while i < end
        invariant
            start <= i <= end <= s@.len(),
            part == s@.subrange(start as int, end as int),
            forall|j: int| start <= j < i ==> s@[j] != c,
        decreases end - i,
    {
        if s[i] == c {
            proof {
                assert forall|j: int| 0 <= j < i - start implies part[j] != c by {
                    assert(part[j] == s@[start + j]);
                }
                lemma_find_byte_is(part, c, i - start);
            }
            return Some(i);
        }
        i = i + 1;
    }
    proof {
        lemma_find_byte(part, c);
        if find_byte(part, c) is Some {
            let k = find_byte(part, c)->Some_0;
            assert(part[k] == s@[start + k]);
        }
    }
    None
}

/// `needle` occurs as a contiguous run somewhere in `hay`.
pub open spec fn spec_contains(hay: Seq<u8>, needle: Seq<u8>) -> bool {
    exists|i: int|
        0 <= i && i + needle.len() <= hay.len() && #[trigger] hay.subrange(i, i + needle.len())
            == needle
}

/// Whether `needle` matches `hay` exactly at position `i`.
fn match_at(hay: &[u8], needle: &[u8], i: usize) -> (r: bool)
    requires
        i + needle@.len() <= hay@.len(),
    ensures
        r == (hay@.subrange(i as int, i + needle@.len()) == needle@),
{
    let ghost sub = hay@.subrange(i as int, i + needle@.len());
    let hl = hay.len();
    let nl = needle.len();
    let mut j: usize = 0;
    while j < nl
        invariant
            i + needle@.len() <= hay@.len(),
            hl == hay@.len(),
            nl == needle@.len(),
            0 <= j <= needle@.len(),
            sub == hay@.subrange(i as int, i + needle@.len()),
            forall|k: int| 0 <= k < j ==> hay@[i + k] == needle@[k],
        decreases needle@.len() - j,
    {
        if hay[i + j] != needle[j] {
            proof {
                assert(sub[j as int] == hay@[i + j]);
                assert(sub != needle@) by {
                    if sub == needle@ {
                        assert(sub[j as int] == needle@[j as int]);
                    }
                }
            }
            return false;
        }
        j = j + 1;
    }
    proof {
        assert(sub =~= needle@);
    }
    true
}

/// Substring search: decides whether `needle` occurs in `hay`.
pub fn contains_bytes(hay: &[u8], needle: &[u8]) -> (r: bool)
    ensures
        r == spec_contains(hay@, needle@),
{
    let n = needle.len();
    let h = hay.len();
    if n > h {
        proof {
            assert(!spec_contains(hay@, needle@));
        }
        return false;
    }
    if n == 0 {
        proof {
            assert(hay@.subrange(0int, 0int + needle@.len() as int) =~= needle@);
        }
        return true;
    }
    let mut i: usize = 0;
    while i <= h - n
        invariant
            n == needle@.len(),
            h == hay@.len(),
            1 <= n <= h,
            0 <= i <= h - n + 1,
            forall|k: int|
                0 <= k < i ==> #[trigger] hay@.subrange(k, k + needle@.len()) != needle@,
        decreases h - i,
    {
        if match_at(hay, needle, i) {
            proof {
                assert(spec_contains(hay@, needle@)) by {
                    assert(hay@.subrange(i as int, i + needle@.len()) == needle@);
                }
            }
            return true;
        }
        i = i + 1;
    }
    proof {
        if spec_contains(hay@, needle@) {
            let k = choose|k: int|
                0 <= k && k + needle@.len() <= hay@.len() && #[trigger] hay@.subrange(
                    k,
                    k + needle@.len(),
                ) == needle@;
            assert(hay@.subrange(k, k + needle@.len()) != needle@);
        }
    }
    false
}

/// ASCII upper-casing of one byte: lower-case letters are shifted, all
/// other bytes are unchanged.
pub open spec fn upper_byte(b: u8) -> u8 {
    if 97 <= b <= 122 {
        (b - 32) as u8
    } else {
        b
    }
}

/// The ASCII upper-casing of a byte sequence.
pub open spec fn spec_upper(s: Seq<u8>) -> Seq<u8> {
    Seq::new(s.len(), |i: int| upper_byte(s[i]))
}

/// Upper-cases a byte string (ASCII letters only; other bytes pass
/// through unchanged).
pub fn to_upper(s: &[u8]) -> (r: Vec<u8>)
    ensures
        r@ == spec_upper(s@),
{
    let mut out: Vec<u8> = Vec::new();
    let mut i: usize = 0;
    while i < s.len()
        invariant
            0 <= i <= s@.len(),
            out@.len() == i,
            forall|j: int| 0 <= j < i ==> out@[j] == upper_byte(#[trigger] s@[j]),
        decreases s@.len() - i,
    {
        let b = s[i];
        if 97 <= b && b <= 122 {
            out.push(b - 32);
        } else {
            out.push(b);
        }
        i = i + 1;
    }
    proof {
        assert(out@ =~= spec_upper(s@));
    }
    out
}

/// The bytes of an ASCII character sequence, code point by code point.
pub open spec fn chars_to_bytes(s: Seq<char>) -> Seq<u8> {
    Seq::new(s.len(), |i: int| s[i] as u8)
}

/// Every code point of the sequence is ASCII.
pub open spec fn ascii_chars(s: Seq<char>) -> bool {
    forall|i: int| 0 <= i < s.len() ==> (#[trigger] s[i] as u32) < 128
}

/// Relies on `String::from_utf8`: ASCII bytes are valid UTF-8 and decode
/// one byte to one character with the same code point.
#[verifier::external_body]
pub fn ascii_to_string(v: Vec<u8>) -> (r: String)
    requires
        forall|i: int| 0 <= i < v@.len() ==> v@[i] < 128,
    ensures
        ascii_chars(r@),
        chars_to_bytes(r@) == v@,
{
    match String::from_utf8(v) {
        Ok(s) => s,
        Err(_) => String::new(),
    }
}

} // verus!

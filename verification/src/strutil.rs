//! Small string and byte-sequence helpers shared by the rules.

use vstd::prelude::*;
use vstd::string::StrSliceExecFns;
use vstd::string::StringExecFns;
use vstd::utf8::encode_utf8;

verus! {

/// Whether the string equals the literal.
pub fn string_is(s: &String, lit: &str) -> (r: bool)
    ensures
        r == (s@ == lit@),
{
    let other = lit.to_owned();
    *s == other
}

/// The concatenation of two strings.
pub fn concat2(a: &str, b: &str) -> (r: String)
    ensures
        r@ == a@ + b@,
{
    let mut s = a.to_owned();
    s.append(b);
    s
}

/// The concatenation `a + b + c`.
pub fn concat3(a: &str, b: &str, c: &str) -> (r: String)
    ensures
        r@ == a@ + b@ + c@,
{
    let mut s = a.to_owned();
    s.append(b);
    s.append(c);
    proof {
        assert(s@ =~= a@ + b@ + c@);
    }
    s
}

/// The concatenation `a + b + c + d + e`.
pub fn concat5(a: &str, b: &str, c: &str, d: &str, e: &str) -> (r: String)
    ensures
        r@ == a@ + b@ + c@ + d@ + e@,
{
    let mut s = a.to_owned();
    s.append(b);
    s.append(c);
    s.append(d);
    s.append(e);
    proof {
        assert(s@ =~= a@ + b@ + c@ + d@ + e@);
    }
    s
}

/// The decimal digit character for a value below ten.
pub open spec fn spec_digit(n: int) -> char {
    ((48 + n) as u8) as char
}

/// The decimal representation of a number.
pub open spec fn spec_decimal(n: int) -> Seq<char>
    decreases n,
    when n >= 0
{
    if n < 10 {
        seq![spec_digit(n)]
    } else {
        spec_decimal(n / 10) + seq![spec_digit(n % 10)]
    }
}

/// Prints a number in decimal.
pub fn u32_to_string(n: u32) -> (r: String)
    ensures
        r@ == spec_decimal(n as int),
    decreases n,
{
    if n < 10 {
        let d = (48 + n) as u8;
        let c = d as char;
        let mut s = String::new();
        push_char(&mut s, c);
        proof {
            assert(s@ =~= seq![spec_digit(n as int)]);
        }
        s
    } else {
        let mut s = u32_to_string(n / 10);
        let d = (48 + (n % 10)) as u8;
        let c = d as char;
        push_char(&mut s, c);
        proof {
            assert(s@ =~= spec_decimal(n as int));
        }
        s
    }
}

/// Relies on String::push: it appends exactly the one character.
#[verifier::external_body]
pub fn push_char(s: &mut String, c: char)
    ensures
        final(s)@ == old(s)@ + seq![c],
{
    s.push(c);
}

/// Whether `a` comes no later than `b` in byte-wise lexicographic order.
pub open spec fn spec_bytes_le(a: Seq<u8>, b: Seq<u8>) -> bool
    decreases a.len(),
{
    if a.len() == 0 {
        true
    } else if b.len() == 0 {
        false
    } else if a[0] < b[0] {
        true
    } else if a[0] > b[0] {
        false
    } else {
        spec_bytes_le(a.drop_first(), b.drop_first())
    }
}

/// Compares two strings in byte-wise lexicographic order.
pub fn str_le(a: &str, b: &str) -> (r: bool)
    ensures
        r == spec_bytes_le(encode_utf8(a@), encode_utf8(b@)),
{
    let ab = a.as_bytes();
    let bb = b.as_bytes();
    let na = ab.len();
    let nb = bb.len();
    let mut i: usize = 0;
    proof {
        assert(ab@.skip(0) =~= ab@);
        assert(bb@.skip(0) =~= bb@);
    }
    while i < na && i < nb
        invariant
            na == ab@.len(),
            nb == bb@.len(),
            ab@ == encode_utf8(a@),
            bb@ == encode_utf8(b@),
            0 <= i <= na,
            i <= nb,
            spec_bytes_le(ab@, bb@) == spec_bytes_le(ab@.skip(i as int), bb@.skip(i as int)),
        decreases na - i,
    {
        proof {
            assert(ab@.skip(i as int)[0] == ab@[i as int]);
            assert(bb@.skip(i as int)[0] == bb@[i as int]);
            assert(ab@.skip(i as int).drop_first() =~= ab@.skip(i + 1));
            assert(bb@.skip(i as int).drop_first() =~= bb@.skip(i + 1));
        }
        if ab[i] < bb[i] {
            return true;
        }
        if ab[i] > bb[i] {
            return false;
        }
        i += 1;
    }
    proof {
        if i >= na {
            assert(ab@.skip(i as int) =~= Seq::<u8>::empty());
        } else {
            assert(bb@.skip(i as int) =~= Seq::<u8>::empty());
            assert(ab@.skip(i as int).len() > 0);
        }
    }
    i >= na
}

/// Whether `sub` occurs as a contiguous run inside `s`.
pub open spec fn contains_seq(s: Seq<u8>, sub: Seq<u8>) -> bool {
    exists|i: int|
        0 <= i <= s.len() - sub.len() && #[trigger] s.subrange(i, i + sub.len() as int) =~= sub
}

/// Whether the UTF-8 bytes of `s` contain those of `needle`.
pub fn str_contains(s: &String, needle: &str) -> (r: bool)
    ensures
        r == contains_seq(encode_utf8(s@), encode_utf8(needle@)),
{
    let sb = s.as_str().as_bytes();
    let nb = needle.as_bytes();
    bytes_contain(sb, nb)
}

/// Whether `sub` occurs as a contiguous run inside `s`.
pub fn bytes_contain(s: &[u8], sub: &[u8]) -> (r: bool)
    ensures
        r == contains_seq(s@, sub@),
{
    let n = s.len();
    let m = sub.len();
    if m > n {
        proof {
            assert(!contains_seq(s@, sub@));
        }
        return false;
    }
    let mut i: usize = 0;
    while i <= n - m
        invariant
            n == s@.len(),
            m == sub@.len(),
            m <= n,
            0 <= i <= n - m + 1,
            forall|k: int|
                0 <= k < i ==> !(#[trigger] s@.subrange(k, k + sub@.len() as int) =~= sub@),
        decreases n + 1 - m - i,
    {
        if match_at(s, sub, i) {
            proof {
                assert(contains_seq(s@, sub@));
            }
            return true;
        }
        i += 1;
    }
    proof {
        assert forall|k: int| 0 <= k <= s@.len() - sub@.len() implies !(#[trigger] s@.subrange(
            k,
            k + sub@.len() as int,
        ) =~= sub@) by {
            assert(k < i);
        }
    }
    false
}

/// Whether `sub` matches `s` at offset `i`.
pub fn match_at(s: &[u8], sub: &[u8], i: usize) -> (r: bool)
    requires
        i + sub@.len() <= s@.len(),
    ensures
        r == (s@.subrange(i as int, i + sub@.len() as int) =~= sub@),
{
    let n = s.len();
    let m = sub.len();
    let mut j: usize = 0;
    while j < m
        invariant
            n == s@.len(),
            m == sub@.len(),
            i + m <= s@.len(),
            0 <= j <= m,
            forall|k: int| 0 <= k < j ==> s@[i + k] == sub@[k],
        decreases m - j,
    {
        if s[i + j] != sub[j] {
            proof {
                assert(s@.subrange(i as int, i + sub@.len() as int)[j as int] == s@[i + j]);
                assert(!(s@.subrange(i as int, i + sub@.len() as int) =~= sub@));
            }
            return false;
        }
        j += 1;
    }
    proof {
        assert forall|k: int| 0 <= k < sub@.len() implies s@.subrange(
            i as int,
            i + sub@.len() as int,
        )[k] == sub@[k] by {
            assert(s@[i + k] == sub@[k]);
        }
        assert(s@.subrange(i as int, i + sub@.len() as int) =~= sub@);
    }
    true
}

} // verus!

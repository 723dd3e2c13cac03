//! Total decoding of raw file bytes into valid UTF-8 buffer contents.
//!
//! Opening a file never fails: bytes that are not valid UTF-8 are read
//! through a one-byte-per-character fallback, so every byte sequence yields
//! a well-formed buffer.

use vstd::prelude::*;
use vstd::utf8::codepoint_width_2;
use vstd::utf8::codepoint_width_3;
use vstd::utf8::codepoint_width_4;
use vstd::utf8::encode_scalar;
use vstd::utf8::is_continuation_byte;
use vstd::utf8::is_leading_byte_width_1;
use vstd::utf8::is_leading_byte_width_2;
use vstd::utf8::is_leading_byte_width_3;
use vstd::utf8::is_leading_byte_width_4;
use vstd::utf8::pop_first_scalar;
use vstd::utf8::valid_first_scalar;
use vstd::utf8::valid_utf8;
use vstd::utf8::valid_utf8_concat;

verus! {

/// The UTF-8 encoding of the byte sequence read as one character per byte
/// (the legacy single-byte fallback used when strict decoding fails).
pub open spec fn latin1_bytes(b: Seq<u8>) -> Seq<u8>
    decreases b.len(),
{
    if b.len() == 0 {
        Seq::empty()
    } else {
        encode_scalar(b[0] as u32) + latin1_bytes(b.drop_first())
    }
}

/// What opening a file stores: the bytes unchanged when they are valid
/// UTF-8, else the one-byte-per-character fallback encoding.
pub open spec fn spec_decode_file(b: Seq<u8>) -> Seq<u8> {
    if valid_utf8(b) {
        b
    } else {
        latin1_bytes(b)
    }
}

/// Decode totality: whatever bytes a file holds, opening it yields a
/// valid decoded buffer — strict decoding when possible, the fallback
/// otherwise, never a failure.
pub proof fn lemma_decode_total(b: Seq<u8>)
    ensures
        valid_utf8(spec_decode_file(b)),
{
    if !valid_utf8(b) {
        lemma_latin1_valid(b);
    }
}

/// Relies on String::from_utf8: it accepts exactly the valid UTF-8 byte
/// sequences and returns a string with those very bytes.
#[verifier::external_body]
pub fn bytes_to_string(v: Vec<u8>) -> (r: String)
    requires
        valid_utf8(v@),
    ensures
        r@ == vstd::utf8::decode_utf8(v@),
{
    match String::from_utf8(v) {
        Ok(s) => s,
        Err(_) => String::new(),
    }
}

/// Checks whether the bytes form a valid UTF-8 encoding.
pub fn is_utf8(bytes: &[u8]) -> (r: bool)
    ensures
        r == valid_utf8(bytes@),
{
    let ghost s = bytes@;
    let n = bytes.len();
    let mut i: usize = 0;
    proof {
        assert(s.subrange(0, n as int) =~= s);
    }
    while i < n
        invariant
            s == bytes@,
            n == s.len(),
            0 <= i <= n,
            valid_utf8(s) <==> valid_utf8(s.subrange(i as int, n as int)),
        decreases n - i,
    {
        let ghost rest = s.subrange(i as int, n as int);
        let b = bytes[i];
        proof {
            assert(rest.len() > 0 && rest[0] == b);
        }
        if b < 0x80 {
            proof {
                assert(b & 0x7f == b) by (bit_vector)
                    requires
                        b < 0x80,
                ;
                assert(valid_first_scalar(rest));
                assert(pop_first_scalar(rest) =~= s.subrange(i + 1, n as int));
            }
            i += 1;
        } else if b < 0xc2 {
            proof {
                if rest.len() >= 2 && is_continuation_byte(rest[1]) && 0xc0 <= b {
                    let c1 = rest[1];
                    assert(codepoint_width_2(b, c1) < 0x80) by (bit_vector)
                        requires
                            0xc0 <= b < 0xc2,
                            0x80 <= c1 <= 0xbf,
                    ;
                }
                assert(!valid_first_scalar(rest));
                assert(!valid_utf8(rest));
            }
            return false;
        } else if b < 0xe0 {
            if i + 1 < n {
                let c1 = bytes[i + 1];
                if 0x80 <= c1 && c1 < 0xc0 {
                    proof {
                        assert(rest[1] == c1);
                        assert(0x80 <= codepoint_width_2(b, c1) <= 0x7ff) by (bit_vector)
                            requires
                                0xc2 <= b < 0xe0,
                                0x80 <= c1 < 0xc0,
                        ;
                        assert(valid_first_scalar(rest));
                        assert(pop_first_scalar(rest) =~= s.subrange(i + 2, n as int));
                    }
                    i += 2;
                } else {
                    proof {
                        assert(!valid_first_scalar(rest));
                        assert(!valid_utf8(rest));
                    }
                    return false;
                }
            } else {
                proof {
                    assert(!valid_first_scalar(rest));
                    assert(!valid_utf8(rest));
                }
                return false;
            }
        } else if b < 0xf0 {
            if n - i > 2 {
                let c1 = bytes[i + 1];
                let c2 = bytes[i + 2];
                let c1_ok = if b == 0xe0 {
                    0xa0 <= c1 && c1 < 0xc0
                } else if b == 0xed {
                    0x80 <= c1 && c1 < 0xa0
                } else {
                    0x80 <= c1 && c1 < 0xc0
                };
                if c1_ok && 0x80 <= c2 && c2 < 0xc0 {
                    proof {
                        assert(rest[1] == c1 && rest[2] == c2);
                        assert({
                            &&& 0x800 <= codepoint_width_3(b, c1, c2)
                            &&& !(0xd800 <= codepoint_width_3(b, c1, c2) <= 0xdfff)
                        }) by (bit_vector)
                            requires
                                0xe0 <= b < 0xf0,
                                0x80 <= c1 < 0xc0,
                                0x80 <= c2 < 0xc0,
                                b == 0xe0 ==> 0xa0 <= c1,
                                b == 0xed ==> c1 < 0xa0,
                        ;
                        assert(valid_first_scalar(rest));
                        assert(pop_first_scalar(rest) =~= s.subrange(i + 3, n as int));
                    }
                    i += 3;
                } else {
                    proof {
                        if rest.len() >= 3 && is_continuation_byte(rest[1])
                            && is_continuation_byte(rest[2]) {
                            assert({
                                ||| codepoint_width_3(b, c1, c2) < 0x800
                                ||| 0xd800 <= codepoint_width_3(b, c1, c2) <= 0xdfff
                            }) by (bit_vector)
                                requires
                                    0xe0 <= b < 0xf0,
                                    0x80 <= c1 < 0xc0,
                                    0x80 <= c2 < 0xc0,
                                    !(b == 0xe0 && 0xa0 <= c1 || b == 0xed && c1 < 0xa0 || b
                                        != 0xe0 && b != 0xed),
                            ;
                        }
                        assert(!valid_first_scalar(rest));
                        assert(!valid_utf8(rest));
                    }
                    return false;
                }
            } else {
                proof {
                    assert(!valid_first_scalar(rest));
                    assert(!valid_utf8(rest));
                }
                return false;
            }
        } else {
            if b <= 0xf4 && n - i > 3 {
                let c1 = bytes[i + 1];
                let c2 = bytes[i + 2];
                let c3 = bytes[i + 3];
                let c1_ok = if b == 0xf0 {
                    0x90 <= c1 && c1 < 0xc0
                } else if b == 0xf4 {
                    0x80 <= c1 && c1 < 0x90
                } else {
                    0x80 <= c1 && c1 < 0xc0
                };
                if c1_ok && 0x80 <= c2 && c2 < 0xc0 && 0x80 <= c3 && c3 < 0xc0 {
                    proof {
                        assert(rest[1] == c1 && rest[2] == c2 && rest[3] == c3);
                        assert(0x10000 <= codepoint_width_4(b, c1, c2, c3) <= 0x10ffff)
                            by (bit_vector)
                            requires
                                0xf0 <= b <= 0xf4,
                                0x80 <= c1 < 0xc0,
                                0x80 <= c2 < 0xc0,
                                0x80 <= c3 < 0xc0,
                                b == 0xf0 ==> 0x90 <= c1,
                                b == 0xf4 ==> c1 < 0x90,
                        ;
                        assert(valid_first_scalar(rest));
                        assert(pop_first_scalar(rest) =~= s.subrange(i + 4, n as int));
                    }
                    i += 4;
                } else {
                    proof {
                        if rest.len() >= 4 && is_continuation_byte(rest[1])
                            && is_continuation_byte(rest[2]) && is_continuation_byte(rest[3])
                            && b <= 0xf7 {
                            assert({
                                ||| codepoint_width_4(b, c1, c2, c3) < 0x10000
                                ||| codepoint_width_4(b, c1, c2, c3) > 0x10ffff
                            }) by (bit_vector)
                                requires
                                    0xf0 <= b <= 0xf7,
                                    0x80 <= c1 < 0xc0,
                                    0x80 <= c2 < 0xc0,
                                    0x80 <= c3 < 0xc0,
                                    !(b == 0xf0 && 0x90 <= c1 || b == 0xf4 && c1 < 0x90 || b
                                        != 0xf0 && b != 0xf4 && b <= 0xf4),
                            ;
                        }
                        assert(!valid_first_scalar(rest));
                        assert(!valid_utf8(rest));
                    }
                    return false;
                }
            } else {
                proof {
                    if b <= 0xf4 {
                        assert(!valid_first_scalar(rest));
                    } else if b <= 0xf7 {
                        if rest.len() >= 4 && is_continuation_byte(rest[1]) && is_continuation_byte(
                            rest[2],
                        ) && is_continuation_byte(rest[3]) {
                            let c1 = rest[1];
                            let c2 = rest[2];
                            let c3 = rest[3];
                            assert(codepoint_width_4(b, c1, c2, c3) > 0x10ffff) by (bit_vector)
                                requires
                                    0xf4 < b <= 0xf7,
                                    0x80 <= c1 < 0xc0,
                                    0x80 <= c2 < 0xc0,
                                    0x80 <= c3 < 0xc0,
                            ;
                        }
                        assert(!valid_first_scalar(rest));
                    } else {
                        assert(!valid_first_scalar(rest));
                    }
                    assert(!valid_utf8(rest));
                }
                return false;
            }
        }
    }
    proof {
        assert(s.subrange(n as int, n as int) =~= Seq::<u8>::empty());
    }
    true
}

/// Appending one byte to the fallback input appends that byte's encoding.
pub proof fn lemma_latin1_push(b: Seq<u8>, x: u8)
    ensures
        latin1_bytes(b + seq![x]) == latin1_bytes(b) + encode_scalar(x as u32),
    decreases b.len(),
{
    if b.len() == 0 {
        assert(b + seq![x] =~= seq![x]);
        assert((seq![x])[0] == x);
        assert((seq![x]).drop_first() =~= Seq::<u8>::empty());
        assert(latin1_bytes(Seq::<u8>::empty()) =~= Seq::<u8>::empty());
        assert(latin1_bytes(b + seq![x]) =~= latin1_bytes(b) + encode_scalar(x as u32));
    } else {
        assert((b + seq![x])[0] == b[0]);
        assert((b + seq![x]).drop_first() =~= b.drop_first() + seq![x]);
        lemma_latin1_push(b.drop_first(), x);
        assert(latin1_bytes(b + seq![x]) =~= latin1_bytes(b) + encode_scalar(x as u32));
    }
}

/// The shape of one fallback character's encoding: one byte below `0x80`,
/// two bytes from `0x80` on; either way a valid UTF-8 sequence.
pub proof fn lemma_encode_byte(x: u8)
    ensures
        x < 0x80 ==> encode_scalar(x as u32) == seq![x],
        x >= 0x80 ==> encode_scalar(x as u32) == seq![(0xc0 | (x >> 6)) as u8, (0x80 | (x & 0x3f)) as u8],
        valid_utf8(encode_scalar(x as u32)),
{
    let v = x as u32;
    if x < 0x80 {
        assert((v & 0x7F) as u8 == x && v & 0x7F == v) by (bit_vector)
            requires
                v == x as u32 && x < 0x80,
        ;
        assert(encode_scalar(v) =~= seq![x]);
        assert(valid_first_scalar(seq![x]));
        assert(pop_first_scalar(seq![x]) =~= Seq::<u8>::empty());
        assert(valid_utf8(Seq::<u8>::empty()));
        assert(valid_utf8(encode_scalar(v)));
    } else {
        let l: u8 = 0xc0 | (x >> 6);
        let c: u8 = 0x80 | (x & 0x3f);
        assert({
            &&& 0xC0 | ((v >> 6) & 0x1F) as u8 == l
            &&& 0x80 | (v & 0x3F) as u8 == c
            &&& 0x80 <= v <= 0x7ff
            &&& 0xc0 <= l <= 0xdf
            &&& 0x80 <= c <= 0xbf
            &&& (((l & 0x1F) as u32) << 6) | ((c & 0x3f) as u32) == v
        }) by (bit_vector)
            requires
                v == x as u32 && x >= 0x80 && l == 0xc0 | (x >> 6) && c == 0x80 | (x & 0x3f),
        ;
        assert(encode_scalar(v) =~= seq![l, c]);
        assert(codepoint_width_2(l, c) == v);
        assert(valid_first_scalar(seq![l, c]));
        assert(pop_first_scalar(seq![l, c]) =~= Seq::<u8>::empty());
        assert(valid_utf8(Seq::<u8>::empty()));
        assert(valid_utf8(encode_scalar(v)));
    }
}

/// The fallback encoding of any byte sequence is valid UTF-8.
pub proof fn lemma_latin1_valid(b: Seq<u8>)
    ensures
        valid_utf8(latin1_bytes(b)),
    decreases b.len(),
{
    if b.len() == 0 {
    } else {
        let x = b[0];
        lemma_latin1_valid(b.drop_first());
        lemma_encode_byte(x);
        valid_utf8_concat(encode_scalar(x as u32), latin1_bytes(b.drop_first()));
    }
}

/// Reads bytes one character per byte and re-encodes them as UTF-8.
pub fn latin1_fallback(bytes: &[u8]) -> (v: Vec<u8>)
    ensures
        v@ == latin1_bytes(bytes@),
{
    let ghost s = bytes@;
    let n = bytes.len();
    let mut v: Vec<u8> = Vec::new();
    let mut i: usize = 0;
    proof {
        assert(s.subrange(0, 0) =~= Seq::<u8>::empty());
        assert(latin1_bytes(s.subrange(0, 0)) =~= Seq::<u8>::empty());
    }
    while i < n
        invariant
            s == bytes@,
            n == s.len(),
            0 <= i <= n,
            v@ == latin1_bytes(s.subrange(0, i as int)),
        decreases n - i,
    {
        let b = bytes[i];
        if b < 0x80 {
            v.push(b);
            proof {
                lemma_encode_byte(b);
            }
        } else {
            let lead: u8 = 0xc0 | (b >> 6);
            let cont: u8 = 0x80 | (b & 0x3f);
            v.push(lead);
            v.push(cont);
            proof {
                lemma_encode_byte(b);
            }
        }
        proof {
            assert(s.subrange(0, i + 1) =~= s.subrange(0, i as int) + seq![b]);
            lemma_latin1_push(s.subrange(0, i as int), b);
        }
        i += 1;
    }
    proof {
        assert(s.subrange(0, n as int) =~= s);
    }
    v
}

} // verus!

//! UTF-16 as the Windows API speaks it: NUL-terminated buffers decoded with
//! replacement of unpaired surrogates, and strings encoded for registry
//! values (little-endian, NUL-terminated).

use vstd::prelude::*;
use crate::text::push_char;

verus! {

/// The replacement character substituted for unpaired surrogates.
pub const REPLACEMENT: char = '\u{FFFD}';

/// Whether `u` is a leading (high) surrogate.
pub open spec fn is_high(u: u16) -> bool {
    0xD800 <= u && u <= 0xDBFF
}

/// Whether `u` is a trailing (low) surrogate.
pub open spec fn is_low(u: u16) -> bool {
    0xDC00 <= u && u <= 0xDFFF
}

/// The code point encoded by a surrogate pair.
pub open spec fn pair_code(h: u16, l: u16) -> int {
    0x10000 + (h - 0xD800) * 0x400 + (l - 0xDC00)
}

/// UTF-16 decoding that replaces each unpaired surrogate by U+FFFD
/// (`String::from_utf16_lossy`).
pub open spec fn decode16(s: Seq<u16>) -> Seq<char>
    decreases s.len(),
{
    if s.len() == 0 {
        Seq::empty()
    } else if is_high(s[0]) && s.len() >= 2 && is_low(s[1]) {
        seq![pair_code(s[0], s[1]) as char] + decode16(s.skip(2))
    } else if is_high(s[0]) || is_low(s[0]) {
        seq![REPLACEMENT] + decode16(s.skip(1))
    } else {
        seq![s[0] as char] + decode16(s.skip(1))
    }
}

/// The units before the first NUL (all of them if there is none).
pub open spec fn before_nul(s: Seq<u16>) -> Seq<u16>
    decreases s.len(),
{
    if s.len() == 0 {
        s
    } else if s[0] == 0 {
        Seq::empty()
    } else {
        seq![s[0]] + before_nul(s.skip(1))
    }
}

/// The UTF-16 units of one character.
pub open spec fn encode_char(c: char) -> Seq<u16> {
    let v = c as u32;
    if v < 0x10000 {
        seq![v as u16]
    } else {
        seq![(0xD800 + (v - 0x10000) / 0x400) as u16, (0xDC00 + (v - 0x10000) % 0x400) as u16]
    }
}

/// The UTF-16 units of a string.
pub open spec fn encode16(s: Seq<char>) -> Seq<u16>
    decreases s.len(),
{
    if s.len() == 0 { Seq::empty() } else { encode_char(s[0]) + encode16(s.skip(1)) }
}

/// The little-endian bytes of UTF-16 units.
pub open spec fn le_bytes(s: Seq<u16>) -> Seq<u8>
    decreases s.len(),
{
    if s.len() == 0 {
        Seq::empty()
    } else {
        seq![(s[0] % 256) as u8, (s[0] / 256) as u8] + le_bytes(s.skip(1))
    }
}

/// The character with code `i`, if `i` is a Unicode scalar value.
///
/// Trusted wrapper around `char::from_u32`, which returns `None` exactly
/// for surrogates and values above U+10FFFF.
#[verifier::external_body]
fn char_from_u32(i: u32) -> (r: Option<char>)
    ensures
        r is Some <==> (i <= 0x10FFFF && !(0xD800 <= i && i <= 0xDFFF)),
        r matches Some(c) ==> c as u32 == i && c == i as char,
{
    char::from_u32(i)
}

proof fn lemma_pair_code_range(h: u16, l: u16)
    requires
        is_high(h),
        is_low(l),
    ensures
        0x10000 <= pair_code(h, l) <= 0x10FFFF,
{
}

/// Decodes UTF-16 units up to the first NUL, replacing unpaired surrogates
/// by U+FFFD.
pub fn utf16_to_string(buf: &[u16]) -> (s: String)
    ensures
        s@ == decode16(before_nul(buf@)),
{
    let n = buf.len();
    let mut len: usize = 0;
    proof {
        assert(buf@.skip(0) =~= buf@);
    }
    while len < n && buf[len] != 0
        invariant
            n == buf@.len(),
            len <= n,
            before_nul(buf@) == buf@.subrange(0, len as int) + before_nul(buf@.skip(len as int)),
        decreases n - len,
    {
        proof {
            let t = buf@.skip(len as int);
            assert(t[0] == buf@[len as int]);
            assert(t.skip(1) =~= buf@.skip(len + 1));
            assert(buf@.subrange(0, len + 1) =~= buf@.subrange(0, len as int) + seq![buf@[len as int]]);
        }
        len = len + 1;
    }
    proof {
        assert(before_nul(buf@.skip(len as int)) =~= Seq::<u16>::empty());
        assert(before_nul(buf@) =~= buf@.subrange(0, len as int));
    }
    decode_units(buf, len)
}

/// Decodes the first `len` UTF-16 units, replacing unpaired surrogates by
/// U+FFFD.
pub fn decode_units(buf: &[u16], len: usize) -> (s: String)
    requires
        len <= buf@.len(),
    ensures
        s@ == decode16(buf@.subrange(0, len as int)),
{
    let n = buf.len();
    let ghost u = buf@.subrange(0, len as int);
    let mut s = String::new();
    let mut i: usize = 0;
    proof {
        assert(u.skip(0) =~= u);
    }
    while i < len
        invariant
            len <= n == buf@.len(),
            u == buf@.subrange(0, len as int),
            i <= len,
            decode16(u) == s@ + decode16(u.skip(i as int)),
        decreases len - i,
    {
        let a = buf[i];
        let ghost t = u.skip(i as int);
        proof {
            assert(t[0] == a);
        }
        if a >= 0xD800 && a <= 0xDBFF && i + 1 < len && buf[i + 1] >= 0xDC00 && buf[i + 1] <= 0xDFFF {
            let b = buf[i + 1];
            proof {
                assert(t[1] == b);
                lemma_pair_code_range(a, b);
                assert(t.skip(2) =~= u.skip(i + 2));
            }
            let code: u32 = 0x10000 + ((a as u32) - 0xD800) * 0x400 + ((b as u32) - 0xDC00);
            match char_from_u32(code) {
                Some(c) => {
                    push_char(&mut s, c);
                },
                None => {
                    proof {
                        assert(false);
                    }
                },
            }
            i = i + 2;
        } else if a >= 0xD800 && a <= 0xDFFF {
            proof {
                assert(t.skip(1) =~= u.skip(i + 1));
                if is_high(a) {
                    assert(!(t.len() >= 2 && is_low(t[1])));
                }
            }
            push_char(&mut s, REPLACEMENT);
            i = i + 1;
        } else {
            proof {
                assert(t.skip(1) =~= u.skip(i + 1));
            }
            match char_from_u32(a as u32) {
                Some(c) => {
                    push_char(&mut s, c);
                },
                None => {
                    proof {
                        assert(false);
                    }
                },
            }
            i = i + 1;
        }
        proof {
            assert(decode16(u) =~= s@ + decode16(u.skip(i as int)));
        }
    }
    proof {
        assert(u.skip(i as int) =~= Seq::<u16>::empty());
        assert(s@ =~= decode16(u));
    }
    s
}

/// The UTF-16 units of a string followed by a NUL, as little-endian bytes:
/// the data of a registry string value.
pub fn registry_string_bytes(value: &str) -> (b: Vec<u8>)
    ensures
        b@ == le_bytes(encode16(value@).push(0)),
{
    let chars = crate::text::chars_of(value);
    let mut units: Vec<u16> = Vec::new();
    let mut i: usize = 0;
    proof {
        assert(encode16(value@) == units@ + encode16(value@.skip(0))) by {
            assert(value@.skip(0) =~= value@);
        }
    }
    while i < chars.len()
        invariant
            chars@ == value@,
            i <= chars@.len(),
            encode16(value@) == units@ + encode16(value@.skip(i as int)),
        decreases chars@.len() - i,
    {
        let c = chars[i];
        let v = c as u32;
        proof {
            assert(value@.skip(i as int)[0] == c);
            assert(value@.skip(i as int).skip(1) =~= value@.skip(i + 1));
        }
        if v < 0x10000 {
            units.push(v as u16);
        } else {
            let w = v - 0x10000;
            units.push((0xD800 + w / 0x400) as u16);
            units.push((0xDC00 + w % 0x400) as u16);
        }
        i = i + 1;
        proof {
            assert(encode16(value@) =~= units@ + encode16(value@.skip(i as int)));
        }
    }
    proof {
        assert(value@.skip(i as int) =~= Seq::<char>::empty());
    }
    units.push(0);
    let ghost all = units@;
    proof {
        assert(all =~= encode16(value@).push(0));
    }
    let mut bytes: Vec<u8> = Vec::new();
    let mut k: usize = 0;
    proof {
        assert(all.skip(0) =~= all);
    }
    while k < units.len()
        invariant
            all == units@,
            k <= all.len(),
            le_bytes(all) == bytes@ + le_bytes(all.skip(k as int)),
        decreases all.len() - k,
    {
        let u = units[k];
        proof {
            assert(all.skip(k as int)[0] == u);
            assert(all.skip(k as int).skip(1) =~= all.skip(k + 1));
        }
        bytes.push((u % 256) as u8);
        bytes.push((u / 256) as u8);
        k = k + 1;
        proof {
            assert(le_bytes(all) =~= bytes@ + le_bytes(all.skip(k as int)));
        }
    }
    proof {
        assert(all.skip(k as int) =~= Seq::<u16>::empty());
        assert(bytes@ =~= le_bytes(all));
    }
    bytes
}

/// Decoding the UTF-16 encoding of a character gives the character back.
proof fn lemma_decode_encode_char(c: char, rest: Seq<u16>)
    ensures
        decode16(encode_char(c) + rest) == seq![c] + decode16(rest),
{
    let v = c as u32;
    let e = encode_char(c) + rest;
    if v < 0x10000 {
        assert(e[0] == v as u16);
        assert(!is_high(e[0]) && !is_low(e[0]));
        assert(e.skip(1) =~= rest);
        assert((e[0] as char) == c);
    } else {
        let w = v - 0x10000;
        let h = (0xD800 + w / 0x400) as u16;
        let l = (0xDC00 + w % 0x400) as u16;
        assert(w < 0x100000);
        assert(w / 0x400 < 0x400);
        assert(e[0] == h && e[1] == l);
        assert(is_high(h) && is_low(l));
        assert(e.skip(2) =~= rest);
        assert(pair_code(h, l) == 0x10000 + (w / 0x400) * 0x400 + w % 0x400);
        assert((w / 0x400) * 0x400 + w % 0x400 == w) by {
            vstd::arithmetic::div_mod::lemma_fundamental_div_mod(w as int, 0x400);
        }
        assert((pair_code(h, l) as char) == c);
    }
}

/// Encoding a string to UTF-16 and decoding it again gives it back (the
/// value written to the registry reads back as the string).
pub proof fn lemma_utf16_roundtrip(s: Seq<char>)
    ensures
        decode16(encode16(s)) == s,
    decreases s.len(),
{
    if s.len() > 0 {
        lemma_utf16_roundtrip(s.skip(1));
        lemma_decode_encode_char(s[0], encode16(s.skip(1)));
        assert(seq![s[0]] + s.skip(1) =~= s);
    }
}

/// Decoding an encoded string followed by more units gives the string, then
/// the decoding of those units.
pub proof fn lemma_decode_encode_append(s: Seq<char>, rest: Seq<u16>)
    ensures
        decode16(encode16(s) + rest) == s + decode16(rest),
    decreases s.len(),
{
    if s.len() > 0 {
        lemma_decode_encode_append(s.skip(1), rest);
        assert(encode16(s) + rest =~= encode_char(s[0]) + (encode16(s.skip(1)) + rest));
        lemma_decode_encode_char(s[0], encode16(s.skip(1)) + rest);
        assert(seq![s[0]] + (s.skip(1) + decode16(rest)) =~= s + decode16(rest));
    } else {
        assert(encode16(s) + rest =~= rest);
        assert(s + decode16(rest) =~= decode16(rest));
    }
}

} // verus!

//! UTF-16, the encoding that the Windows text conversions take and give:
//! encoding a string to code units and decoding code units back.
use vstd::prelude::*;

use crate::text::{push_char, to_chars};

verus! {

/// The UTF-16 code units of one character: one unit below U+10000, else a
/// high surrogate and a low surrogate.
pub open spec fn utf16_of_char(c: char) -> Seq<u16> {
    let v = c as int;
    if v < 0x10000 {
        seq![v as u16]
    } else {
        seq![(0xD800 + (v - 0x10000) / 0x400) as u16, (0xDC00 + (v - 0x10000) % 0x400) as u16]
    }
}

/// The UTF-16 code units of a string (what `str::encode_utf16` yields).
pub open spec fn utf16_encode(s: Seq<char>) -> Seq<u16>
    decreases s.len(),
{
    if s.len() == 0 {
        Seq::empty()
    } else {
        utf16_of_char(s[0]) + utf16_encode(s.drop_first())
    }
}

/// A code unit that is not a surrogate stands for itself.
pub open spec fn is_surrogate(u: u16) -> bool {
    0xD800 <= u <= 0xDFFF
}

/// The character of a high and a low surrogate.
pub open spec fn surrogate_pair_char(hi: u16, lo: u16) -> char {
    ((hi - 0xD800) * 0x400 + (lo - 0xDC00) + 0x10000) as char
}

/// The string that UTF-16 code units stand for, or `None` when a surrogate
/// is unpaired (what `String::from_utf16` decides).
pub open spec fn utf16_decode(u: Seq<u16>) -> Option<Seq<char>>
    decreases u.len(),
{
    if u.len() == 0 {
        Some(Seq::empty())
    } else if !is_surrogate(u[0]) {
        match utf16_decode(u.drop_first()) {
            Some(r) => Some(seq![u[0] as char] + r),
            None => None,
        }
    } else if u[0] <= 0xDBFF && u.len() >= 2 && 0xDC00 <= u[1] <= 0xDFFF {
        match utf16_decode(u.subrange(2, u.len() as int)) {
            Some(r) => Some(seq![surrogate_pair_char(u[0], u[1])] + r),
            None => None,
        }
    } else {
        None
    }
}

/// The character with scalar value `x`, if `x` is one.
///
/// Calls `char::from_u32`, which is documented to return `None` exactly for
/// values above U+10FFFF and for surrogates; the contract states that.
#[verifier::external_body]
fn char_from_u32(x: u32) -> (r: Option<char>)
    ensures
        r.is_some() == (x <= 0x10FFFF && !(0xD800 <= x <= 0xDFFF)),
        r.is_some() ==> r.unwrap() as int == x,
{
    char::from_u32(x)
}

/// A character's scalar value is at most U+10FFFF and not a surrogate.
pub proof fn lemma_char_range(c: char)
    ensures
        0 <= c as int <= 0x10FFFF,
        !(0xD800 <= c as int <= 0xDFFF),
{
}

/// The scalar value of `c`.
fn char_code(c: char) -> (r: u32)
    ensures
        r as int == c as int,
        r <= 0x10FFFF,
        !(0xD800 <= r <= 0xDFFF),
{
    c as u32
}

/// Encoding distributes over concatenation.
pub proof fn lemma_utf16_encode_add(a: Seq<char>, b: Seq<char>)
    ensures
        utf16_encode(a + b) == utf16_encode(a) + utf16_encode(b),
    decreases a.len(),
{
    if a.len() == 0 {
        assert(a + b =~= b);
        assert(utf16_encode(a) + utf16_encode(b) =~= utf16_encode(b));
    } else {
        lemma_utf16_encode_add(a.drop_first(), b);
        assert((a + b).drop_first() =~= a.drop_first() + b);
        assert((a + b)[0] == a[0]);
        assert(utf16_of_char(a[0]) + (utf16_encode(a.drop_first()) + utf16_encode(b))
            =~= (utf16_of_char(a[0]) + utf16_encode(a.drop_first())) + utf16_encode(b));
    }
}

/// The code units of `s`.
pub fn encode_utf16(s: &str) -> (r: Vec<u16>)
    ensures
        r@ == utf16_encode(s@),
{
    let cs = to_chars(s);
    let mut out: Vec<u16> = Vec::new();
    let mut i: usize = 0;
    while i < cs.len()
        invariant
            cs@ == s@,
            0 <= i <= cs.len(),
            out@ == utf16_encode(cs@.take(i as int)),
        decreases cs.len() - i,
    {
        let c = cs[i];
        let v = char_code(c);
        let ghost before = out@;
        if v < 0x10000 {
            let unit = v as u16;
            assert(unit as int == v as int);
            out.push(unit);
            assert(utf16_of_char(c) =~= seq![unit]);
        } else {
            let w = v - 0x10000;
            let hi = (0xD800 + w / 0x400) as u16;
            let lo = (0xDC00 + w % 0x400) as u16;
            assert(hi as int == 0xD800 + (c as int - 0x10000) / 0x400);
            assert(lo as int == 0xDC00 + (c as int - 0x10000) % 0x400);
            out.push(hi);
            out.push(lo);
            assert(utf16_of_char(c) =~= seq![hi, lo]);
        }
        proof {
            assert(out@ =~= before + utf16_of_char(c));
            let one = seq![c];
            assert(utf16_encode(one) =~= utf16_of_char(c)) by {
                assert(one.drop_first() =~= Seq::<char>::empty());
                assert(utf16_encode(Seq::<char>::empty()) =~= Seq::<u16>::empty());
                assert(one[0] == c);
            }
            assert(cs@.take(i + 1) =~= cs@.take(i as int) + one);
            lemma_utf16_encode_add(cs@.take(i as int), one);
        }
        i = i + 1;
    }
    assert(cs@.take(cs.len() as int) =~= s@);
    out
}

/// The outcome of decoding, with `prefix` decoded before.
pub open spec fn after_prefix(prefix: Seq<char>, rest: Option<Seq<char>>) -> Option<Seq<char>> {
    match rest {
        Some(r) => Some(prefix + r),
        None => None,
    }
}

/// The string that `units` stand for, or `None` when a surrogate is unpaired.
pub fn decode_utf16(units: &Vec<u16>) -> (r: Option<String>)
    ensures
        match r {
            Some(s) => utf16_decode(units@) == Some(s@),
            None => utf16_decode(units@) is None,
        },
{
    let n = units.len();
    let mut out = String::new();
    let mut i: usize = 0;
    proof {
        assert(units@.subrange(0, n as int) =~= units@);
        match utf16_decode(units@) {
            Some(r) => {
                assert(out@ + r =~= r);
            },
            None => {},
        }
    }
    while i < n
        invariant
            n == units@.len(),
            0 <= i <= n,
            after_prefix(out@, utf16_decode(units@.subrange(i as int, n as int))) == utf16_decode(
                units@,
            ),
        decreases n - i,
    {
        let ghost rest = units@.subrange(i as int, n as int);
        let u = units[i];
        if u < 0xD800 || u > 0xDFFF {
            let c = match char_from_u32(u as u32) {
                Some(c) => c,
                None => {
                    return None;
                },
            };
            proof {
                assert(rest.drop_first() =~= units@.subrange(i + 1, n as int));
                assert(c == rest[0] as char);
            }
            let ghost before = out@;
            push_char(&mut out, c);
            proof {
                match utf16_decode(units@.subrange(i + 1, n as int)) {
                    Some(r) => {
                        assert(out@ + r =~= before + (seq![c] + r));
                    },
                    None => {},
                }
            }
            i = i + 1;
        } else if u <= 0xDBFF && i + 1 < n && 0xDC00 <= units[i + 1] && units[i + 1] <= 0xDFFF {
            let lo = units[i + 1];
            let x = ((u - 0xD800) as u32) * 0x400 + ((lo - 0xDC00) as u32) + 0x10000;
            let c = match char_from_u32(x) {
                Some(c) => c,
                None => {
                    return None;
                },
            };
            proof {
                assert(rest.subrange(2, rest.len() as int) =~= units@.subrange(i + 2, n as int));
                assert(rest[1] == lo);
                assert(c == surrogate_pair_char(u, lo));
            }
            let ghost before = out@;
            push_char(&mut out, c);
            proof {
                match utf16_decode(units@.subrange(i + 2, n as int)) {
                    Some(r) => {
                        assert(out@ + r =~= before + (seq![c] + r));
                    },
                    None => {},
                }
            }
            i = i + 2;
        } else {
            return None;
        }
    }
    proof {
        assert(units@.subrange(n as int, n as int) =~= Seq::<u16>::empty());
        assert(out@ + Seq::<char>::empty() =~= out@);
    }
    Some(out)
}

/// Decoding what encoding gave returns the string.
pub proof fn law_utf16_round_trip(s: Seq<char>)
    ensures
        utf16_decode(utf16_encode(s)) == Some(s),
    decreases s.len(),
{
    if s.len() > 0 {
        let c = s[0];
        let rest = s.drop_first();
        law_utf16_round_trip(rest);
        let u = utf16_encode(s);
        let tail = utf16_encode(rest);
        let v = c as int;
        lemma_char_range(c);
        assert(s =~= seq![c] + rest);
        if v < 0x10000 {
            let unit = v as u16;
            assert(unit as int == v);
            assert(u =~= seq![unit] + tail);
            assert(u[0] == unit);
            assert(u.drop_first() =~= tail);
            assert(((unit as char) as int) == v);
            assert((u[0] as char) == c);
        } else {
            let q = (v - 0x10000) / 0x400;
            let r = (v - 0x10000) % 0x400;
            assert(0 <= q < 0x400 && 0 <= r < 0x400);
            let hi = (0xD800 + q) as u16;
            let lo = (0xDC00 + r) as u16;
            assert(hi as int == 0xD800 + q);
            assert(lo as int == 0xDC00 + r);
            assert(u =~= seq![hi, lo] + tail);
            assert(u[0] == hi && u[1] == lo);
            assert(u.subrange(2, u.len() as int) =~= tail);
            assert((v - 0x10000) == q * 0x400 + r);
            assert((hi - 0xD800) * 0x400 + (lo - 0xDC00) + 0x10000 == v);
            assert((surrogate_pair_char(hi, lo) as int) == v);
            assert(surrogate_pair_char(hi, lo) == c);
        }
        assert(seq![c] + rest =~= s);
    }
}

} // verus!

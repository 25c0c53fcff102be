//! Shared helpers of the string collators: padding-insensitive comparison
//! trims trailing spaces, and character-wise collation walks UTF-8 input one
//! scalar at a time.

use vstd::prelude::*;

verus! {

pub const PADDING_SPACE: u8 = 32;

/// `s` with every trailing padding space removed.
pub open spec fn spec_trim_end_padding(s: Seq<u8>) -> Seq<u8>
    decreases s.len(),
{
    if s.len() > 0 && s[s.len() - 1] == PADDING_SPACE {
        spec_trim_end_padding(s.drop_last())
    } else {
        s
    }
}

proof fn lemma_trim_end_padding_at(s: Seq<u8>, hi: int)
    requires
        0 <= hi <= s.len(),
        forall|j: int| hi <= j < s.len() ==> s[j] == PADDING_SPACE,
        hi == 0 || s[hi - 1] != PADDING_SPACE,
    ensures
        spec_trim_end_padding(s) =~= s.take(hi),
    decreases s.len() - hi,
{
    if hi == s.len() {
        assert(s.take(hi) =~= s);
    } else {
        assert(s.drop_last() =~= s.take(s.len() - 1));
        lemma_trim_end_padding_at(s.drop_last(), hi);
        assert(s.drop_last().take(hi) =~= s.take(hi));
    }
}

/// Strips trailing padding spaces before a padding-insensitive comparison.
pub fn trim_end_padding(s: &[u8]) -> (r: &[u8])
    ensures
        r@ == spec_trim_end_padding(s@),
{
    let mut hi: usize = s.len();
    while hi > 0 && s[hi - 1] == PADDING_SPACE
        invariant
            hi <= s@.len(),
            forall|j: int| hi <= j < s@.len() ==> s@[j] == PADDING_SPACE,
        decreases hi,
    {
        hi = hi - 1;
    }
    proof {
        lemma_trim_end_padding_at(s@, hi as int);
    }
    let (head, _) = s.split_at(hi);
    head
}

/// The byte length the leading byte announces, when it can lead a UTF-8
/// scalar at all.
pub open spec fn spec_utf8_len(b: u8) -> Option<int> {
    if b <= 0x7F {
        Some(1)
    } else if 0xC2 <= b <= 0xDF {
        Some(2)
    } else if 0xE0 <= b <= 0xEF {
        Some(3)
    } else if 0xF0 <= b <= 0xF4 {
        Some(4)
    } else {
        None
    }
}

pub open spec fn is_cont(b: u8) -> bool {
    0x80 <= b <= 0xBF
}

/// The code point the first `len` bytes spell.
pub open spec fn spec_utf8_decode(s: Seq<u8>, len: int) -> u32 {
    if len == 1 {
        s[0] as u32
    } else if len == 2 {
        ((s[0] as u32 & 0x1F) << 6) | (s[1] as u32 & 0x3F)
    } else if len == 3 {
        ((s[0] as u32 & 0x0F) << 12) | ((s[1] as u32 & 0x3F) << 6) | (s[2] as u32 & 0x3F)
    } else {
        ((s[0] as u32 & 0x07) << 18) | ((s[1] as u32 & 0x3F) << 12) | ((s[2] as u32 & 0x3F) << 6)
            | (s[3] as u32 & 0x3F)
    }
}

/// Whether the first `len` bytes are a well-formed, shortest, non-surrogate
/// encoding of a scalar value.
pub open spec fn spec_utf8_valid(s: Seq<u8>, len: int) -> bool {
    &&& s.len() >= len
    &&& forall|j: int| 1 <= j < len ==> is_cont(#[trigger] s[j])
    &&& (len == 3 ==> {
        let cp = spec_utf8_decode(s, 3);
        cp >= 0x800 && !(0xD800 <= cp <= 0xDFFF)
    })
    &&& (len == 4 ==> {
        let cp = spec_utf8_decode(s, 4);
        0x10000 <= cp <= 0x10FFFF
    })
}

/// Relies on `char::from_u32`: it accepts exactly the scalar values — every
/// code point except the surrogate range — and hands back that code point as
/// a character.
pub assume_specification[ char::from_u32 ](v: u32) -> (r: Option<char>)
    ensures
        (r is Some) <==> (v < 0xD800 || (0xE000 <= v && v <= 0x10FFFF)),
        match r {
            Some(c) => c as u32 == v,
            None => true,
        },
;

/// Decodes the first UTF-8 scalar of `s` and hands back the remainder, or
/// nothing when `s` does not begin with a well-formed scalar.
pub fn next_utf8_char(s: &[u8]) -> (r: Option<(char, &[u8])>)
    ensures
        match r {
            Some(p) => {
                &&& spec_utf8_len(s@[0]) matches Some(len)
                &&& spec_utf8_valid(s@, spec_utf8_len(s@[0]).unwrap())
                &&& p.0 as u32 == spec_utf8_decode(s@, spec_utf8_len(s@[0]).unwrap())
                &&& p.1@ == s@.skip(spec_utf8_len(s@[0]).unwrap())
            },
            None => s@.len() == 0 || spec_utf8_len(s@[0]) is None || !spec_utf8_valid(
                s@,
                spec_utf8_len(s@[0]).unwrap(),
            ),
        },
{
    if s.len() == 0 {
        return None;
    }
    let b0 = s[0];
    let len: usize = if b0 <= 0x7F {
        1
    } else if 0xC2 <= b0 && b0 <= 0xDF {
        2
    } else if 0xE0 <= b0 && b0 <= 0xEF {
        3
    } else if 0xF0 <= b0 && b0 <= 0xF4 {
        4
    } else {
        return None;
    };
    if s.len() < len {
        return None;
    }
    let mut j: usize = 1;
    while j < len
        invariant
            1 <= j <= len,
            len <= s@.len(),
            spec_utf8_len(s@[0]) == Some(len as int),
            forall|k: int| 1 <= k < j ==> is_cont(#[trigger] s@[k]),
        decreases len - j,
    {
        let b = s[j];
        if !(0x80 <= b && b <= 0xBF) {
            proof {
                assert(!is_cont(s@[j as int]));
            }
            return None;
        }
        j = j + 1;
    }
    let cp: u32 = if len == 1 {
        b0 as u32
    } else if len == 2 {
        ((b0 as u32 & 0x1F) << 6u32) | (s[1] as u32 & 0x3F)
    } else if len == 3 {
        ((b0 as u32 & 0x0F) << 12u32) | ((s[1] as u32 & 0x3F) << 6u32) | (s[2] as u32 & 0x3F)
    } else {
        ((b0 as u32 & 0x07) << 18u32) | ((s[1] as u32 & 0x3F) << 12u32) | ((s[2] as u32 & 0x3F)
            << 6u32) | (s[3] as u32 & 0x3F)
    };
    if len == 3 {
        if !(cp >= 0x800 && !(0xD800 <= cp && cp <= 0xDFFF)) {
            return None;
        }
    }
    if len == 4 {
        if !(0x10000 <= cp && cp <= 0x10FFFF) {
            return None;
        }
    }
    proof {
        if len == 1 {
            assert(cp < 0xD800);
        }
        if len == 2 {
            let b1: u8 = s@[1];
            assert(cp < 0xD800) by (bit_vector)
                requires
                    cp == ((b0 as u32 & 0x1F) << 6u32) | (b1 as u32 & 0x3F),
            ;
        }
        if len == 3 {
            let b1: u8 = s@[1];
            let b2: u8 = s@[2];
            assert(cp <= 0xFFFF) by (bit_vector)
                requires
                    cp == ((b0 as u32 & 0x0F) << 12u32) | ((b1 as u32 & 0x3F) << 6u32) | (
                    b2 as u32 & 0x3F),
            ;
        }
    }
    let (_, tail) = s.split_at(len);
    proof {
        assert(tail@ =~= s@.skip(len as int));
    }
    match char::from_u32(cp) {
        Some(c) => Some((c, tail)),
        None => None,
    }
}

} // verus!

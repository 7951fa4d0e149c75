//! Byte-level text logic: locating the terminator byte of a foreign text
//! buffer and validating that the bytes before it are well-formed UTF-8.

use vstd::prelude::*;

verus! {

/// Index of the first zero byte of `s`, or `s.len()` when `s` holds none.
pub open spec fn first_zero_index(s: Seq<u8>) -> int
    decreases s.len(),
{
    if s.len() == 0 {
        0
    } else if s[0] == 0 {
        0
    } else {
        1 + first_zero_index(s.skip(1))
    }
}

/// `first_zero_index` names the first zero byte: it is in bounds exactly
/// when a zero byte occurs, no earlier byte is zero, and the byte there is
/// zero.
pub proof fn lemma_first_zero_index(s: Seq<u8>)
    ensures
        0 <= first_zero_index(s) <= s.len(),
        first_zero_index(s) < s.len() ==> s[first_zero_index(s)] == 0,
        forall|j: int| 0 <= j < first_zero_index(s) ==> s[j] != 0,
        s.contains(0u8) ==> first_zero_index(s) < s.len(),
    decreases s.len(),
{
    if s.len() == 0 {
    } else if s[0] == 0 {
    } else {
        let t = s.skip(1);
        lemma_first_zero_index(t);
        assert(forall|j: int| 1 <= j < s.len() ==> s[j] == t[j - 1]);
        if s.contains(0u8) {
            let k = choose|k: int| 0 <= k < s.len() && s[k] == 0u8;
            assert(t[k - 1] == 0u8);
            assert(t.contains(0u8));
        }
    }
}

/// Returns the index of the first zero byte of `bytes`, if any.
pub fn find_terminator(bytes: &Vec<u8>) -> (r: Option<usize>)
    ensures
        match r {
            Some(i) => i == first_zero_index(bytes@),
            None => !bytes@.contains(0u8) && first_zero_index(bytes@) == bytes@.len(),
        },
{
    proof {
        lemma_first_zero_index(bytes@);
    }
    let n = bytes.len();
    let mut i: usize = 0;
    while i < n
        invariant
            i <= n,
            n == bytes@.len(),
            forall|j: int| 0 <= j < i ==> bytes@[j] != 0,
        decreases n - i,
    {
        if bytes[i] == 0 {
            proof {
                lemma_first_zero_of_prefix(bytes@, i as int);
            }
            return Some(i);
        }
        i = i + 1;
    }
    proof {
        if bytes@.contains(0u8) {
            let k = choose|k: int| 0 <= k < bytes@.len() && bytes@[k] == 0u8;
            assert(bytes@[k] != 0);
        }
    }
    None
}

/// Whether `b` is a UTF-8 continuation byte.
pub open spec fn is_cont(b: u8) -> bool {
    0x80 <= b <= 0xBF
}

/// How many bytes the UTF-8 sequence led by `b0` spans.
pub open spec fn utf8_len(b0: u8) -> int {
    if b0 < 0x80 {
        1
    } else if b0 < 0xE0 {
        2
    } else if b0 < 0xF0 {
        3
    } else {
        4
    }
}

/// Whether `s` starts with one well-formed UTF-8 encoded scalar value: the
/// lead byte admits the shape, the continuation bytes are present and in the
/// ranges that exclude overlong encodings and surrogates.
pub open spec fn starts_with_valid_char(s: Seq<u8>) -> bool {
    s.len() > 0 && {
        let b0 = s[0];
        if b0 < 0x80 {
            true
        } else if b0 < 0xC2 {
            false
        } else if b0 <= 0xDF {
            s.len() >= 2 && is_cont(s[1])
        } else if b0 == 0xE0 {
            s.len() >= 3 && 0xA0 <= s[1] <= 0xBF && is_cont(s[2])
        } else if b0 <= 0xEC {
            s.len() >= 3 && is_cont(s[1]) && is_cont(s[2])
        } else if b0 == 0xED {
            s.len() >= 3 && 0x80 <= s[1] <= 0x9F && is_cont(s[2])
        } else if b0 <= 0xEF {
            s.len() >= 3 && is_cont(s[1]) && is_cont(s[2])
        } else if b0 == 0xF0 {
            s.len() >= 4 && 0x90 <= s[1] <= 0xBF && is_cont(s[2]) && is_cont(s[3])
        } else if b0 <= 0xF3 {
            s.len() >= 4 && is_cont(s[1]) && is_cont(s[2]) && is_cont(s[3])
        } else if b0 == 0xF4 {
            s.len() >= 4 && 0x80 <= s[1] <= 0x8F && is_cont(s[2]) && is_cont(s[3])
        } else {
            false
        }
    }
}

/// Whether `s` is a well-formed UTF-8 byte sequence: a concatenation of
/// well-formed encoded scalar values.
pub open spec fn is_utf8(s: Seq<u8>) -> bool
    decreases s.len(),
{
    s.len() == 0 || (starts_with_valid_char(s) && is_utf8(s.skip(utf8_len(s[0]))))
}

/// Checks whether the first `end` bytes of `bytes` are well-formed UTF-8.
pub fn validate_utf8(bytes: &Vec<u8>, end: usize) -> (r: bool)
    requires
        end <= bytes@.len(),
    ensures
        r == is_utf8(bytes@.subrange(0, end as int)),
{
    let ghost t = bytes@.subrange(0, end as int);
    proof {
        assert(t.skip(0) =~= t);
    }
    let mut i: usize = 0;
    while i < end
        invariant
            i <= end,
            end <= bytes@.len(),
            t == bytes@.subrange(0, end as int),
            is_utf8(t) == is_utf8(t.skip(i as int)),
        decreases end - i,
    {
        let ghost rest = t.skip(i as int);
        proof {
            assert(rest.len() == end - i);
            assert(forall|j: int| 0 <= j < rest.len() ==> rest[j] == bytes@[i + j]);
        }
        let b0 = bytes[i];
        let need: usize = if b0 < 0x80 {
            1
        } else if b0 < 0xE0 {
            2
        } else if b0 < 0xF0 {
            3
        } else {
            4
        };
        proof {
            assert(need == utf8_len(b0));
        }
        if end - i < need {
            proof {
                assert(!starts_with_valid_char(rest));
            }
            return false;
        }
        let ok: bool = if b0 < 0x80 {
            true
        } else if b0 < 0xC2 {
            false
        } else if b0 <= 0xDF {
            let b1 = bytes[i + 1];
            0x80 <= b1 && b1 <= 0xBF
        } else {
            let b1 = bytes[i + 1];
            let b2 = bytes[i + 2];
            let head_ok: bool = if b0 == 0xE0 {
                0xA0 <= b1 && b1 <= 0xBF
            } else if b0 == 0xED {
                0x80 <= b1 && b1 <= 0x9F
            } else if b0 <= 0xEF {
                0x80 <= b1 && b1 <= 0xBF
            } else if b0 == 0xF0 {
                0x90 <= b1 && b1 <= 0xBF
            } else if b0 <= 0xF3 {
                0x80 <= b1 && b1 <= 0xBF
            } else if b0 == 0xF4 {
                0x80 <= b1 && b1 <= 0x8F
            } else {
                false
            };
            if b0 < 0xF0 {
                head_ok && 0x80 <= b2 && b2 <= 0xBF
            } else {
                let b3 = bytes[i + 3];
                head_ok && 0x80 <= b2 && b2 <= 0xBF && 0x80 <= b3 && b3 <= 0xBF
            }
        };
        if !ok {
            proof {
                assert(!starts_with_valid_char(rest));
            }
            return false;
        }
        proof {
            assert(starts_with_valid_char(rest));
            assert(rest.skip(need as int) =~= t.skip(i + need));
        }
        i = i + need;
    }
    proof {
        assert(t.skip(i as int).len() == 0);
    }
    true
}

/// When every byte before `i` is non-zero and the byte at `i` is zero,
/// `i` is the first zero index.
pub proof fn lemma_first_zero_of_prefix(s: Seq<u8>, i: int)
    requires
        0 <= i < s.len(),
        s[i] == 0,
        forall|j: int| 0 <= j < i ==> s[j] != 0,
    ensures
        first_zero_index(s) == i,
    decreases i,
{
    if i == 0 {
    } else {
        let t = s.skip(1);
        assert(forall|j: int| 0 <= j < t.len() ==> t[j] == s[j + 1]);
        lemma_first_zero_of_prefix(t, i - 1);
    }
}

} // verus!

//! Well-formedness of UTF-8 byte sequences.
//!
//! Strings cross the wire as length-prefixed byte runs; a run is only
//! accepted when it is well-formed UTF-8, exactly as the std validator
//! demands (shortest forms only, no surrogates, max U+10FFFF).

use vstd::prelude::*;

verus! {

/// A UTF-8 continuation byte.
pub open spec fn is_cont(b: u8) -> bool {
    0x80 <= b <= 0xBF
}

/// The byte run is well-formed UTF-8.
pub open spec fn is_utf8(s: Seq<u8>) -> bool
    decreases s.len(),
{
    if s.len() == 0 {
        true
    } else {
        let b0 = s[0];
        if b0 < 0x80 {
            is_utf8(s.skip(1))
        } else if b0 < 0xC2 {
            false
        } else if b0 <= 0xDF {
            s.len() >= 2 && is_cont(s[1]) && is_utf8(s.skip(2))
        } else if b0 == 0xE0 {
            s.len() >= 3 && 0xA0 <= s[1] <= 0xBF && is_cont(s[2]) && is_utf8(s.skip(3))
        } else if b0 <= 0xEC {
            s.len() >= 3 && is_cont(s[1]) && is_cont(s[2]) && is_utf8(s.skip(3))
        } else if b0 == 0xED {
            s.len() >= 3 && 0x80 <= s[1] <= 0x9F && is_cont(s[2]) && is_utf8(s.skip(3))
        } else if b0 <= 0xEF {
            s.len() >= 3 && is_cont(s[1]) && is_cont(s[2]) && is_utf8(s.skip(3))
        } else if b0 == 0xF0 {
            s.len() >= 4 && 0x90 <= s[1] <= 0xBF && is_cont(s[2]) && is_cont(s[3])
                && is_utf8(s.skip(4))
        } else if b0 <= 0xF3 {
            s.len() >= 4 && is_cont(s[1]) && is_cont(s[2]) && is_cont(s[3]) && is_utf8(s.skip(4))
        } else if b0 == 0xF4 {
            s.len() >= 4 && 0x80 <= s[1] <= 0x8F && is_cont(s[2]) && is_cont(s[3])
                && is_utf8(s.skip(4))
        } else {
            false
        }
    }
}

/// Skipping in two steps is skipping once.
proof fn lemma_skip_skip(s: Seq<u8>, i: int, k: int)
    requires
        0 <= i,
        0 <= k,
        i + k <= s.len(),
    ensures
        s.skip(i).skip(k) == s.skip(i + k),
{
    assert(s.skip(i).skip(k) =~= s.skip(i + k));
}

/// Check that a byte run is well-formed UTF-8.
pub fn validate_utf8(s: &[u8]) -> (r: bool)
    ensures
        r == is_utf8(s@),
{
    let n = s.len();
    let mut i: usize = 0;
    proof {
        assert(s@.skip(0) =~= s@);
    }
    while i < n
        invariant
            i <= n,
            n == s@.len(),
            is_utf8(s@) == is_utf8(s@.skip(i as int)),
        decreases n - i,
    {
        let b0 = s[i];
        proof {
            let rest = s@.skip(i as int);
            assert(rest.len() == n - i);
            assert(rest[0] == s@[i as int]);
            if i + 1 < n {
                assert(rest[1] == s@[i as int + 1]);
            }
            if i + 2 < n {
                assert(rest[2] == s@[i as int + 2]);
            }
            if i + 3 < n {
                assert(rest[3] == s@[i as int + 3]);
            }
        }
        let width: usize = if b0 < 0x80 {
            1
        } else if b0 < 0xC2 {
            return false;
        } else if b0 <= 0xDF {
            if n - i < 2 || !(0x80 <= s[i + 1] && s[i + 1] <= 0xBF) {
                return false;
            }
            2
        } else if b0 == 0xE0 {
            if n - i < 3 || !(0xA0 <= s[i + 1] && s[i + 1] <= 0xBF)
                || !(0x80 <= s[i + 2] && s[i + 2] <= 0xBF) {
                return false;
            }
            3
        } else if b0 <= 0xEC {
            if n - i < 3 || !(0x80 <= s[i + 1] && s[i + 1] <= 0xBF)
                || !(0x80 <= s[i + 2] && s[i + 2] <= 0xBF) {
                return false;
            }
            3
        } else if b0 == 0xED {
            if n - i < 3 || !(0x80 <= s[i + 1] && s[i + 1] <= 0x9F)
                || !(0x80 <= s[i + 2] && s[i + 2] <= 0xBF) {
                return false;
            }
            3
        } else if b0 <= 0xEF {
            if n - i < 3 || !(0x80 <= s[i + 1] && s[i + 1] <= 0xBF)
                || !(0x80 <= s[i + 2] && s[i + 2] <= 0xBF) {
                return false;
            }
            3
        } else if b0 == 0xF0 {
            if n - i < 4 || !(0x90 <= s[i + 1] && s[i + 1] <= 0xBF)
                || !(0x80 <= s[i + 2] && s[i + 2] <= 0xBF)
                || !(0x80 <= s[i + 3] && s[i + 3] <= 0xBF) {
                return false;
            }
            4
        } else if b0 <= 0xF3 {
            if n - i < 4 || !(0x80 <= s[i + 1] && s[i + 1] <= 0xBF)
                || !(0x80 <= s[i + 2] && s[i + 2] <= 0xBF)
                || !(0x80 <= s[i + 3] && s[i + 3] <= 0xBF) {
                return false;
            }
            4
        } else if b0 == 0xF4 {
            if n - i < 4 || !(0x80 <= s[i + 1] && s[i + 1] <= 0x8F)
                || !(0x80 <= s[i + 2] && s[i + 2] <= 0xBF)
                || !(0x80 <= s[i + 3] && s[i + 3] <= 0xBF) {
                return false;
            }
            4
        } else {
            return false;
        };
        proof {
            lemma_skip_skip(s@, i as int, width as int);
        }
        i = i + width;
    }
    proof {
        assert(s@.skip(n as int) =~= Seq::<u8>::empty());
    }
    true
}

} // verus!

//! UTF-8 validity. Playlist bytes are rewritten as text only when they form
//! valid UTF-8; the check is verified against a byte-level statement of the
//! encoding (overlong forms and surrogate encodings excluded).

use vstd::prelude::*;

verus! {

/// A UTF-8 continuation byte.
pub open spec fn is_cont(b: u8) -> bool {
    0x80 <= b && b <= 0xBF
}

/// The bytes of `s` form valid UTF-8 text: each step takes one well-formed
/// scalar-value encoding.
pub open spec fn is_utf8(s: Seq<u8>) -> bool
    decreases s.len(),
{
    if s.len() == 0 {
        true
    } else {
        let b0 = s[0];
        if b0 < 0x80 {
            is_utf8(s.skip(1))
        } else if 0xC2 <= b0 && b0 <= 0xDF {
            s.len() >= 2 && is_cont(s[1]) && is_utf8(s.skip(2))
        } else if b0 == 0xE0 {
            s.len() >= 3 && 0xA0 <= s[1] && s[1] <= 0xBF && is_cont(s[2]) && is_utf8(s.skip(3))
        } else if (0xE1 <= b0 && b0 <= 0xEC) || b0 == 0xEE || b0 == 0xEF {
            s.len() >= 3 && is_cont(s[1]) && is_cont(s[2]) && is_utf8(s.skip(3))
        } else if b0 == 0xED {
            s.len() >= 3 && 0x80 <= s[1] && s[1] <= 0x9F && is_cont(s[2]) && is_utf8(s.skip(3))
        } else if b0 == 0xF0 {
            s.len() >= 4 && 0x90 <= s[1] && s[1] <= 0xBF && is_cont(s[2]) && is_cont(s[3])
                && is_utf8(s.skip(4))
        } else if 0xF1 <= b0 && b0 <= 0xF3 {
            s.len() >= 4 && is_cont(s[1]) && is_cont(s[2]) && is_cont(s[3]) && is_utf8(s.skip(4))
        } else if b0 == 0xF4 {
            s.len() >= 4 && 0x80 <= s[1] && s[1] <= 0x8F && is_cont(s[2]) && is_cont(s[3])
                && is_utf8(s.skip(4))
        } else {
            false
        }
    }
}

/// Checks that `v` is valid UTF-8 text.
pub fn is_utf8_text(v: &Vec<u8>) -> (r: bool)
    ensures
        r == is_utf8(v@),
{
    let n = v.len();
    let mut i: usize = 0;
    proof {
        assert(v@.skip(0) =~= v@);
    }
    while i < n
        invariant
            i <= n,
            n == v@.len(),
            is_utf8(v@) == is_utf8(v@.skip(i as int)),
        decreases n - i,
    {
        let ghost s = v@.skip(i as int);
        let b0 = v[i];
        proof {
            assert(s.len() == n - i);
            assert(s[0] == v@[i as int]);
        }
        if b0 < 0x80 {
            proof {
                assert(s.skip(1) =~= v@.skip(i as int + 1));
            }
            i += 1;
        } else if 0xC2 <= b0 && b0 <= 0xDF {
            if n - i > 1 {
                let b1 = v[i + 1];
                proof {
                    assert(s[1] == v@[i as int + 1]);
                }
                if 0x80 <= b1 && b1 <= 0xBF {
                    proof {
                        assert(s.skip(2) =~= v@.skip(i as int + 2));
                    }
                    i += 2;
                } else {
                    return false;
                }
            } else {
                return false;
            }
        } else if 0xE0 <= b0 && b0 <= 0xEF {
            let lo1: u8 = if b0 == 0xE0 {
                0xA0
            } else {
                0x80
            };
            let hi1: u8 = if b0 == 0xED {
                0x9F
            } else {
                0xBF
            };
            if n - i > 2 {
                let b1 = v[i + 1];
                let b2 = v[i + 2];
                proof {
                    assert(s[1] == v@[i as int + 1]);
                    assert(s[2] == v@[i as int + 2]);
                }
                if lo1 <= b1 && b1 <= hi1 && 0x80 <= b2 && b2 <= 0xBF {
                    proof {
                        assert(s.skip(3) =~= v@.skip(i as int + 3));
                    }
                    i += 3;
                } else {
                    return false;
                }
            } else {
                return false;
            }
        } else if 0xF0 <= b0 && b0 <= 0xF4 {
            let lo1: u8 = if b0 == 0xF0 {
                0x90
            } else {
                0x80
            };
            let hi1: u8 = if b0 == 0xF4 {
                0x8F
            } else {
                0xBF
            };
            if n - i > 3 {
                let b1 = v[i + 1];
                let b2 = v[i + 2];
                let b3 = v[i + 3];
                proof {
                    assert(s[1] == v@[i as int + 1]);
                    assert(s[2] == v@[i as int + 2]);
                    assert(s[3] == v@[i as int + 3]);
                }
                if lo1 <= b1 && b1 <= hi1 && 0x80 <= b2 && b2 <= 0xBF && 0x80 <= b3 && b3 <= 0xBF {
                    proof {
                        assert(s.skip(4) =~= v@.skip(i as int + 4));
                    }
                    i += 4;
                } else {
                    return false;
                }
            } else {
                return false;
            }
        } else {
            return false;
        }
    }
    proof {
        assert(v@.skip(n as int) =~= Seq::<u8>::empty());
    }
    true
}

} // verus!

//! Bounded capture of a worker's output streams.
//!
//! A captured stream is stored whole when its UTF-8 encoding fits
//! under the configured byte ceiling; otherwise it is cut at the
//! largest character boundary whose encoding does not exceed the
//! ceiling, and a fixed truncation marker is appended.

use vstd::prelude::*;
use vstd::utf8::encode_scalar;
use vstd::utf8::encode_utf8;

verus! {

/// The marker appended to a stream that was cut at the ceiling.
pub open spec fn spec_truncation_marker() -> Seq<char> {
    "\n... [truncated]"@
}

/// How many bytes one character occupies in UTF-8.
pub open spec fn spec_char_bytes(c: char) -> nat {
    encode_scalar(c as u32).len()
}

/// How many bytes a text occupies in UTF-8.
pub open spec fn spec_byte_len(s: Seq<char>) -> nat {
    encode_utf8(s).len()
}

/// The longest prefix, in characters, whose UTF-8 encoding fits the
/// byte budget: characters are taken from the front for as long as
/// each fits into what the budget has left.
pub open spec fn spec_byte_fit(s: Seq<char>, budget: int) -> int
    decreases s.len(),
{
    if s.len() == 0 {
        0
    } else if spec_char_bytes(s[0]) <= budget {
        1 + spec_byte_fit(s.drop_first(), budget - spec_char_bytes(s[0]))
    } else {
        0
    }
}

/// What a stored stream looks like for a byte ceiling: the text itself
/// when its encoding fits, or its longest character prefix whose
/// encoding does not exceed the ceiling, followed by the marker.
pub open spec fn spec_truncated(s: Seq<char>, ceiling: nat) -> Seq<char> {
    if spec_byte_len(s) <= ceiling {
        s
    } else {
        s.take(spec_byte_fit(s, ceiling as int)) + spec_truncation_marker()
    }
}

/// How many bytes one character occupies in UTF-8, computed from its
/// scalar value; every `char` is a Unicode scalar, so the four width
/// classes cover it.
fn char_width(c: char) -> (r: usize)
    ensures
        r == spec_char_bytes(c),
{
    let u = c as u32;
    if u < 0x80 {
        1
    } else if u < 0x800 {
        2
    } else if u < 0x10000 {
        3
    } else {
        4
    }
}

/// Applies the byte ceiling to one captured stream.
pub fn truncate_output(s: &str, ceiling: usize) -> (r: String)
    ensures
        r@ == spec_truncated(s@, ceiling as nat),
{
    let n = s.unicode_len();
    let mut i: usize = 0;
    let mut used: usize = 0;
    proof {
        assert(s@.skip(0) =~= s@);
    }
    while i < n && char_width(s.get_char(i)) <= ceiling - used
        invariant
            n == s@.len(),
            i <= n,
            used <= ceiling,
            spec_byte_len(s@) == used + spec_byte_len(s@.skip(i as int)),
            spec_byte_fit(s@, ceiling as int) == i + spec_byte_fit(
                s@.skip(i as int),
                ceiling - used,
            ),
        decreases n - i,
    {
        let w = char_width(s.get_char(i));
        proof {
            assert(s@.skip(i as int)[0] == s@[i as int]);
            assert(s@.skip(i as int).drop_first() =~= s@.skip(i + 1));
            assert(spec_byte_len(s@.skip(i as int)) == spec_char_bytes(s@[i as int])
                + spec_byte_len(s@.skip(i + 1))) by {
                assert(encode_utf8(s@.skip(i as int)) == encode_scalar(
                    s@.skip(i as int)[0] as u32,
                ) + encode_utf8(s@.skip(i as int).drop_first()));
            }
            assert(spec_byte_fit(s@.skip(i as int), ceiling - used) == 1 + spec_byte_fit(
                s@.skip(i + 1),
                ceiling - used - spec_char_bytes(s@[i as int]),
            ));
        }
        used = used + w;
        i = i + 1;
    }
    if i == n {
        proof {
            assert(s@.skip(n as int) =~= Seq::<char>::empty());
            assert(spec_byte_len(s@.skip(n as int)) == 0);
            assert(spec_byte_len(s@) <= ceiling);
        }
        s.to_owned()
    } else {
        proof {
            assert(s@.skip(i as int)[0] == s@[i as int]);
            assert(s@.skip(i as int).drop_first() =~= s@.skip(i + 1));
            assert(spec_byte_fit(s@.skip(i as int), ceiling - used) == 0);
            assert(spec_byte_fit(s@, ceiling as int) == i);
            assert(spec_byte_len(s@.skip(i as int)) == spec_char_bytes(s@[i as int])
                + spec_byte_len(s@.skip(i + 1))) by {
                assert(encode_utf8(s@.skip(i as int)) == encode_scalar(
                    s@.skip(i as int)[0] as u32,
                ) + encode_utf8(s@.skip(i as int).drop_first()));
            }
            assert(spec_byte_len(s@) > ceiling);
        }
        let head = s.substring_char(0, i);
        let mut r = head.to_owned();
        r.append("\n... [truncated]");
        proof {
            assert(s@.subrange(0, i as int) == s@.take(i as int));
        }
        r
    }
}

} // verus!

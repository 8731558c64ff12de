//! Small helpers for building and inspecting strings character by
//! character.

use vstd::prelude::*;
use vstd::string::StrSliceExecFns;

verus! {

/// Relies on std's `String::push`: appends exactly this character.
#[verifier::external_body]
pub fn push_char(s: &mut String, c: char)
    ensures
        final(s)@ == old(s)@.push(c),
{
    s.push(c);
}

/// The characters of a string slice, as a vector.
pub fn str_to_chars(s: &str) -> (v: Vec<char>)
    ensures
        v@ == s@,
{
    let n = s.unicode_len();
    let mut v: Vec<char> = Vec::new();
    let mut i: usize = 0;
    while i < n
        invariant
            0 <= i <= n,
            n == s@.len(),
            v@ == s@.subrange(0, i as int),
        decreases n - i,
    {
        v.push(s.get_char(i));
        proof {
            assert(v@ =~= s@.subrange(0, i + 1));
        }
        i += 1;
    }
    proof {
        assert(v@ =~= s@);
    }
    v
}

/// Whether the characters `chars[start .. end]` spell exactly `s`.
pub fn range_matches_str(chars: &Vec<char>, start: usize, end: usize, s: &String) -> (r: bool)
    requires
        start <= end <= chars@.len(),
    ensures
        r == (chars@.subrange(start as int, end as int) == s@),
{
    let n = s.as_str().unicode_len();
    if n != end - start {
        proof {
            assert(chars@.subrange(start as int, end as int).len() == end - start);
        }
        return false;
    }
    let mut i: usize = 0;
    while i < n
        invariant
            0 <= i <= n,
            n == s@.len(),
            n == end - start,
            start <= end <= chars@.len(),
            forall|k: int| 0 <= k < i ==> #[trigger] chars@[start + k] == s@[k],
        decreases n - i,
    {
        if chars[start + i] != s.as_str().get_char(i) {
            proof {
                assert(chars@.subrange(start as int, end as int)[i as int] != s@[i as int]);
            }
            return false;
        }
        i += 1;
    }
    proof {
        assert forall|k: int|
            0 <= k < n implies chars@.subrange(start as int, end as int)[k] == s@[k] by {
            assert(chars@[start + k] == s@[k]);
        }
        assert(chars@.subrange(start as int, end as int) =~= s@);
    }
    true
}

} // verus!

use vstd::prelude::*;
use vstd::utf8::is_ascii_chars;
use crate::error::DemonError;

verus! {

/// The bytes of an ASCII string, one per character.
pub open spec fn ascii_bytes(s: Seq<char>) -> Seq<u8> {
    Seq::new(s.len(), |i: int| s[i] as u8)
}

/// The length of the `https://` or `http://` that `b` starts with; 0 where
/// it starts with neither.
pub open spec fn scheme_len(b: Seq<u8>) -> int {
    if b.len() >= 8 && b.subrange(0, 8) == seq![104u8, 116u8, 116u8, 112u8, 115u8, 58u8, 47u8, 47u8] {
        8
    } else if b.len() >= 7 && b.subrange(0, 7) == seq![104u8, 116u8, 116u8, 112u8, 58u8, 47u8, 47u8] {
        7
    } else {
        0
    }
}

/// Whether `b` is a visible ASCII character: no space, no control character.
pub open spec fn visible(b: u8) -> bool {
    32 < b < 127
}

/// Whether `s` is a well-formed video reference: ASCII, `https://` or
/// `http://` followed by at least one character, every one of them visible.
pub open spec fn valid_video(s: Seq<char>) -> bool {
    let b = ascii_bytes(s);
    &&& is_ascii_chars(s)
    &&& scheme_len(b) > 0
    &&& b.len() > scheme_len(b)
    &&& forall|i: int| scheme_len(b) <= i < b.len() ==> visible(#[trigger] b[i])
}

/// Checks that a video reference is well formed.
pub fn validate(video: &String) -> (r: Result<(), DemonError>)
    ensures
        r is Ok <==> valid_video(video@),
        r matches Err(e) ==> e == DemonError::MalformedVideo,
{
    let s = video.as_str();
    if !s.is_ascii() {
        return Err(DemonError::MalformedVideo);
    }
    let b = s.as_bytes();
    proof {
        vstd::string::is_ascii_spec_bytes(s);
        assert(b@ =~= ascii_bytes(video@));
    }
    let n = b.len();
    let k: usize = if n >= 8 && b[0] == 104 && b[1] == 116 && b[2] == 116 && b[3] == 112 && b[4] == 115
        && b[5] == 58 && b[6] == 47 && b[7] == 47 {
        assert(b@.subrange(0, 8) =~= seq![104u8, 116u8, 116u8, 112u8, 115u8, 58u8, 47u8, 47u8]);
        8
    } else if n >= 7 && b[0] == 104 && b[1] == 116 && b[2] == 116 && b[3] == 112 && b[4] == 58
        && b[5] == 47 && b[6] == 47 {
        assert(b@.subrange(0, 7) =~= seq![104u8, 116u8, 116u8, 112u8, 58u8, 47u8, 47u8]);
        if n >= 8 {
            assert(b@.subrange(0, 8)[4] != seq![104u8, 116u8, 116u8, 112u8, 115u8, 58u8, 47u8, 47u8][4]);
        }
        7
    } else {
        proof {
            if n >= 8 && b@.subrange(0, 8) == seq![104u8, 116u8, 116u8, 112u8, 115u8, 58u8, 47u8, 47u8] {
                assert(b@[0] == b@.subrange(0, 8)[0] && b@[1] == b@.subrange(0, 8)[1] && b@[2] == b@.subrange(0, 8)[2] && b@[3] == b@.subrange(0, 8)[3]);
                assert(b@[4] == b@.subrange(0, 8)[4] && b@[5] == b@.subrange(0, 8)[5] && b@[6] == b@.subrange(0, 8)[6] && b@[7] == b@.subrange(0, 8)[7]);
            }
            if n >= 7 && b@.subrange(0, 7) == seq![104u8, 116u8, 116u8, 112u8, 58u8, 47u8, 47u8] {
                assert(b@[0] == b@.subrange(0, 7)[0] && b@[1] == b@.subrange(0, 7)[1] && b@[2] == b@.subrange(0, 7)[2] && b@[3] == b@.subrange(0, 7)[3]);
                assert(b@[4] == b@.subrange(0, 7)[4] && b@[5] == b@.subrange(0, 7)[5] && b@[6] == b@.subrange(0, 7)[6]);
            }
        }
        0
    };
    assert(k == scheme_len(b@));
    if k == 0 || n <= k {
        return Err(DemonError::MalformedVideo);
    }
    let mut i: usize = k;
    while i < n
        invariant
            k <= i <= n,
            n == b@.len(),
            k == scheme_len(b@),
            b@ == ascii_bytes(video@),
            forall|j: int| k <= j < i ==> visible(#[trigger] b@[j]),
        decreases n - i,
    {
        if b[i] <= 32 || b[i] >= 127 {
            return Err(DemonError::MalformedVideo);
        }
        i += 1;
    }
    Ok(())
}

} // verus!

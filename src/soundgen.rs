use vstd::prelude::*;

use crate::text::{chars_of, string_of, sub_chars};

verus! {

/// `name` without a trailing `.mid`, where it has one (the case matters).
pub open spec fn without_mid(name: Seq<char>) -> Seq<char> {
    if name.len() >= 4 && name.subrange(name.len() - 4, name.len() as int) == ".mid"@ {
        name.subrange(0, name.len() - 4)
    } else {
        name
    }
}

/// Drops a trailing `.mid` from a file name.
pub fn strip_mid_extension(filename: String) -> (r: String)
    ensures
        r@ == without_mid(filename@),
{
    let v = chars_of(filename.as_str());
    let n = v.len();
    proof {
        reveal_strlit(".mid");
    }
    if n >= 4 && v[n - 4] == '.' && v[n - 3] == 'm' && v[n - 2] == 'i' && v[n - 1] == 'd' {
        assert(v@.subrange(n - 4, n as int) =~= ".mid"@);
        let head = sub_chars(&v, 0, n - 4);
        string_of(head.as_slice())
    } else {
        proof {
            if n >= 4 && filename@.subrange(n - 4, n as int) == ".mid"@ {
                assert(filename@.subrange(n - 4, n as int)[0] == '.');
                assert(filename@.subrange(n - 4, n as int)[1] == 'm');
                assert(filename@.subrange(n - 4, n as int)[2] == 'i');
                assert(filename@.subrange(n - 4, n as int)[3] == 'd');
            }
        }
        filename
    }
}

} // verus!

//! Names of metrics as a text exposition takes them: lower case, without
//! spaces and slashes.

use vstd::prelude::*;
use vstd::string::{StrSliceExecFns, StringExecFns};

verus! {

/// The lower-case form of an ASCII capital letter; any other character
/// stays as it is.
pub open spec fn lower(c: char) -> char {
    if 'A' <= c && c <= 'Z' {
        ((c as u8) + 32) as char
    } else {
        c
    }
}

/// What one character of a hierarchical name becomes: a space becomes an
/// underscore, a slash two of them, a capital letter its lower-case form.
pub open spec fn flat_char(c: char) -> Seq<char> {
    if c == ' ' {
        seq!['_']
    } else if c == '/' {
        seq!['_', '_']
    } else {
        seq![lower(c)]
    }
}

/// The flat name of a metric: each character of its hierarchical name
/// replaced by what it becomes.
pub open spec fn flat_name(name: Seq<char>) -> Seq<char>
    decreases name.len(),
{
    if name.len() == 0 {
        Seq::empty()
    } else {
        flat_name(name.drop_last()) + flat_char(name.last())
    }
}

/// Builds the flat name of a metric from its hierarchical name.
pub fn flatten_name(name: &str) -> (flat: String)
    ensures
        flat@ == flat_name(name@),
{
    let alphabet = "abcdefghijklmnopqrstuvwxyz";
    proof {
        reveal_strlit("abcdefghijklmnopqrstuvwxyz");
        reveal_strlit("_");
        reveal_strlit("__");
    }
    let len = name.unicode_len();
    let mut flat = String::new();
    let mut i: usize = 0;
    proof {
        assert(name@.take(0) =~= Seq::<char>::empty());
    }
    while i < len
        invariant
            i <= len,
            len == name@.len(),
            alphabet@ == "abcdefghijklmnopqrstuvwxyz"@,
            flat@ == flat_name(name@.take(i as int)),
        decreases len - i,
    {
        let c = name.get_char(i);
        proof {
            assert(name@.take(i + 1).drop_last() =~= name@.take(i as int));
            assert(name@.take(i + 1).last() == c);
            reveal_strlit("abcdefghijklmnopqrstuvwxyz");
            reveal_strlit("_");
            reveal_strlit("__");
        }
        if c == ' ' {
            flat.append("_");
            proof {
                assert("_"@ =~= flat_char(c));
            }
        } else if c == '/' {
            flat.append("__");
            proof {
                assert("__"@ =~= flat_char(c));
            }
        } else if 'A' <= c && c <= 'Z' {
            let k: usize = (c as u8 - 65) as usize;
            let piece = alphabet.substring_char(k, k + 1);
            proof {
                assert(alphabet@.len() == 26);
                assert(alphabet@[k as int] == lower(c)) by {
                    assert(alphabet@[0] == 'a' && alphabet@[1] == 'b' && alphabet@[2] == 'c'
                        && alphabet@[3] == 'd' && alphabet@[4] == 'e' && alphabet@[5] == 'f'
                        && alphabet@[6] == 'g' && alphabet@[7] == 'h' && alphabet@[8] == 'i'
                        && alphabet@[9] == 'j' && alphabet@[10] == 'k' && alphabet@[11] == 'l'
                        && alphabet@[12] == 'm' && alphabet@[13] == 'n' && alphabet@[14] == 'o'
                        && alphabet@[15] == 'p' && alphabet@[16] == 'q' && alphabet@[17] == 'r'
                        && alphabet@[18] == 's' && alphabet@[19] == 't' && alphabet@[20] == 'u'
                        && alphabet@[21] == 'v' && alphabet@[22] == 'w' && alphabet@[23] == 'x'
                        && alphabet@[24] == 'y' && alphabet@[25] == 'z');
                }
                assert(piece@ =~= flat_char(c));
            }
            flat.append(piece);
        } else {
            let piece = name.substring_char(i, i + 1);
            proof {
                assert(piece@ =~= flat_char(c));
            }
            flat.append(piece);
        }
        i += 1;
    }
    proof {
        assert(name@.take(len as int) =~= name@);
    }
    flat
}

} // verus!

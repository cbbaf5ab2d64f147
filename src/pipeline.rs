//! Preparation of source text before parsing.

use vstd::prelude::*;
use vstd::string::StringSliceAdditionalSpecFns;
use crate::render::push_char;
use crate::bytecode::BYTECODE_SUFFIX;
use crate::compiler::{same_ignoring_ascii_case, same_ignoring_case};

verus! {

/// A `//` starts at byte `j`.
pub open spec fn opens_comment(b: Seq<u8>, j: int) -> bool {
    0 <= j && j + 1 < b.len() && b[j] == 47 && b[j + 1] == 47
}

/// Byte `i` lies in a line comment: a `//` starts at or before it, with no
/// newline from there up to and including it.
pub open spec fn in_comment(b: Seq<u8>, i: int) -> bool {
    exists|j: int|
        #![trigger opens_comment(b, j)]
        0 <= j <= i && opens_comment(b, j) && forall|k: int| j <= k <= i ==> b[k] != 10
}

/// One character per byte: a space for each byte of a comment, else the
/// byte read as a character.
pub open spec fn blanked(b: Seq<u8>) -> Seq<char> {
    Seq::new(b.len(), |i: int| if in_comment(b, i) { ' ' } else { b[i] as char })
}

/// Replaces every line comment by spaces, one per byte, so that byte
/// offsets into the result match those into the source.
pub fn strip_line_comments_preserve_len(src: &str) -> (r: String)
    ensures
        r@ == blanked(src.spec_bytes()),
{
    let bytes = src.as_bytes();
    let ghost b = bytes@;
    let n = bytes.len();
    let mut out = String::new();
    let mut i: usize = 0;
    while i < n
        invariant
            n == b.len(),
            b == bytes@,
            b == src.spec_bytes(),
            i <= n,
            out@ == blanked(b).subrange(0, i as int),
            forall|j: int|
                #![trigger opens_comment(b, j)]
                0 <= j < i && opens_comment(b, j) ==> exists|k: int| j <= k < i && b[k] == 10,
        decreases n - i,
    {
        if bytes[i] == 47 && i + 1 < n && bytes[i + 1] == 47 {
            let start = i;
            proof {
                assert(opens_comment(b, start as int));
            }
            push_char(&mut out, ' ');
            push_char(&mut out, ' ');
            i = i + 2;
            proof {
                assert forall|q: int| start <= q < i implies in_comment(b, q) by {
                    assert(forall|k: int| start <= k <= q ==> b[k] != 10);
                }
                assert(out@ =~= blanked(b).subrange(0, i as int));
            }
            while i < n && bytes[i] != 10
                invariant
                    n == b.len(),
                    b == bytes@,
                    b == src.spec_bytes(),
                    start + 2 <= i <= n,
                    opens_comment(b, start as int),
                    forall|k: int| start <= k < i ==> b[k] != 10,
                    out@ == blanked(b).subrange(0, i as int),
                decreases n - i,
            {
                push_char(&mut out, ' ');
                proof {
                    assert(forall|k: int| start <= k <= i ==> b[k] != 10);
                    assert(in_comment(b, i as int));
                    assert(out@ =~= blanked(b).subrange(0, i + 1));
                }
                i = i + 1;
            }
            if i == n {
                proof {
                    assert(out@ =~= blanked(b));
                }
                return out;
            }
            push_char(&mut out, 10u8 as char);
            proof {
                assert(!in_comment(b, i as int));
                assert(out@ =~= blanked(b).subrange(0, i + 1));
                assert forall|j: int|
                    #![trigger opens_comment(b, j)]
                    0 <= j < i + 1 && opens_comment(b, j) implies exists|k: int|
                        j <= k < i + 1 && b[k] == 10 by {
                    if j >= start {
                        assert(b[i as int] == 10);
                    } else {
                        let k = choose|k: int| j <= k < start && b[k] == 10;
                        assert(j <= k < i + 1 && b[k] == 10);
                    }
                }
            }
            i = i + 1;
        } else {
            push_char(&mut out, bytes[i] as char);
            proof {
                assert(!opens_comment(b, i as int));
                if in_comment(b, i as int) {
                    let j = choose|j: int|
                        #![trigger opens_comment(b, j)]
                        0 <= j <= i && opens_comment(b, j) && forall|k: int| j <= k <= i ==> b[k] != 10;
                    assert(j < i);
                    let k = choose|k: int| j <= k < i && b[k] == 10;
                    assert(b[k] != 10);
                }
                assert(out@ =~= blanked(b).subrange(0, i + 1));
                assert forall|j: int|
                    #![trigger opens_comment(b, j)]
                    0 <= j < i + 1 && opens_comment(b, j) implies exists|k: int|
                        j <= k < i + 1 && b[k] == 10 by {
                    let k = choose|k: int| j <= k < i && b[k] == 10;
                    assert(j <= k < i + 1 && b[k] == 10);
                }
            }
            i = i + 1;
        }
    }
    proof {
        assert(out@ =~= blanked(b));
    }
    out
}


/// Whether a file name ends with the bytecode suffix, ignoring ASCII case.
pub fn is_bytecode_name(file_name: &str) -> (r: bool)
    ensures
        r == (file_name@.len() >= BYTECODE_SUFFIX@.len() && same_ignoring_ascii_case(
            file_name@.subrange(
                file_name@.len() - BYTECODE_SUFFIX@.len(),
                file_name@.len() as int,
            ),
            BYTECODE_SUFFIX@,
        )),
{
    let n = file_name.unicode_len();
    let k = BYTECODE_SUFFIX.unicode_len();
    if n < k {
        return false;
    }
    same_ignoring_case(file_name.substring_char(n - k, n), BYTECODE_SUFFIX)
}

} // verus!

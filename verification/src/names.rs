//! File names. A name is a key into one flat folder and nothing more: the
//! handlers act only on names that cannot lead out of that folder.

use vstd::prelude::*;
use vstd::utf8::encode_utf8;

verus! {

/// Whether a byte may stand in a file name: no path separator of either
/// kind and no NUL.
pub open spec fn plain_byte(b: u8) -> bool {
    b != 47 && b != 92 && b != 0
}

/// Whether the bytes are a plain file name: not empty, not `.` or `..`, and
/// made of plain bytes alone.
pub open spec fn plain_bytes(name: Seq<u8>) -> bool {
    &&& name.len() > 0
    &&& name != seq![46u8]
    &&& name != seq![46u8, 46u8]
    &&& forall|i: int| 0 <= i < name.len() ==> plain_byte(#[trigger] name[i])
}

/// Whether a name, taken by its UTF-8 bytes, is a plain file name.
pub open spec fn plain_name(name: Seq<char>) -> bool {
    plain_bytes(encode_utf8(name))
}

/// Whether `name` is a plain file name.
pub fn is_plain_name(name: &str) -> (r: bool)
    ensures
        r == plain_name(name@),
{
    let bytes = name.as_bytes();
    let n = bytes.len();
    if n == 0 {
        return false;
    }
    if n == 1 && bytes[0] == 46 {
        assert(bytes@ =~= seq![46u8]);
        return false;
    }
    if n == 2 && bytes[0] == 46 && bytes[1] == 46 {
        assert(bytes@ =~= seq![46u8, 46u8]);
        return false;
    }
    assert(bytes@ != seq![46u8]) by {
        if bytes@ == seq![46u8] {
            assert(seq![46u8].len() == 1);
            assert(seq![46u8][0] == 46);
        }
    }
    assert(bytes@ != seq![46u8, 46u8]) by {
        if bytes@ == seq![46u8, 46u8] {
            assert(seq![46u8, 46u8].len() == 2);
            assert(seq![46u8, 46u8][0] == 46);
            assert(seq![46u8, 46u8][1] == 46);
        }
    }
    let mut i: usize = 0;
    while i < n
        invariant
            i <= n,
            n == bytes@.len(),
            bytes@ == encode_utf8(name@),
            forall|j: int| 0 <= j < i ==> plain_byte(#[trigger] bytes@[j]),
        decreases n - i,
    {
        let b = bytes[i];
        if b == 47 || b == 92 || b == 0 {
            assert(!plain_byte(bytes@[i as int]));
            return false;
        }
        i += 1;
    }
    true
}

} // verus!

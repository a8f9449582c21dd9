//! Comparing texts by their bytes.

use vstd::prelude::*;
use vstd::string::*;
use vstd::utf8::*;

verus! {

/// Whether `prefix` is how `bytes` begins.
pub open spec fn is_prefix(prefix: Seq<u8>, bytes: Seq<u8>) -> bool {
    prefix.len() <= bytes.len() && bytes.subrange(0, prefix.len() as int) == prefix
}

/// Two texts with the same UTF-8 bytes are the same text.
pub proof fn lemma_utf8_injective(a: Seq<char>, b: Seq<char>)
    requires
        encode_utf8(a) == encode_utf8(b),
    ensures
        a == b,
{
    encode_utf8_decode_utf8(a);
    encode_utf8_decode_utf8(b);
}

/// Whether the first `len` bytes of `a` and `b` are the same, where both
/// have that many.
fn same_bytes(a: &[u8], b: &[u8], len: usize) -> (same: bool)
    requires
        len <= a@.len(),
        len <= b@.len(),
    ensures
        same == (a@.subrange(0, len as int) == b@.subrange(0, len as int)),
{
    let mut i: usize = 0;
    while i < len
        invariant
            i <= len,
            len <= a@.len(),
            len <= b@.len(),
            a@.subrange(0, i as int) == b@.subrange(0, i as int),
        decreases len - i,
    {
        if a[i] != b[i] {
            assert(a@.subrange(0, len as int)[i as int] != b@.subrange(0, len as int)[i as int]);
            return false;
        }
        i = i + 1;
        assert(a@.subrange(0, i as int) =~= a@.subrange(0, i - 1).push(a@[i - 1]));
        assert(b@.subrange(0, i as int) =~= b@.subrange(0, i - 1).push(b@[i - 1]));
    }
    true
}

/// Whether the two texts are the same.
pub fn str_eq(a: &str, b: &str) -> (same: bool)
    ensures
        same == (a@ == b@),
{
    let x = a.as_bytes();
    let y = b.as_bytes();
    if x.len() != y.len() {
        return false;
    }
    let same = same_bytes(x, y, x.len());
    proof {
        assert(x@.subrange(0, x@.len() as int) =~= x@);
        assert(y@.subrange(0, y@.len() as int) =~= y@);
        if same {
            lemma_utf8_injective(a@, b@);
        }
    }
    same
}

/// Whether the UTF-8 bytes of `text` begin with those of `prefix`.
pub fn starts_with(text: &str, prefix: &str) -> (found: bool)
    ensures
        found == is_prefix(encode_utf8(prefix@), encode_utf8(text@)),
{
    let x = text.as_bytes();
    let y = prefix.as_bytes();
    if y.len() > x.len() {
        return false;
    }
    let same = same_bytes(x, y, y.len());
    proof {
        assert(y@.subrange(0, y@.len() as int) =~= y@);
    }
    same
}

} // verus!

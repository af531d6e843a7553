//! Comparisons of strings, byte by byte, stated over their characters.
use vstd::prelude::*;
use vstd::utf8::{decode_utf8, decode_utf8_encode_utf8, encode_utf8, encode_utf8_decode_utf8};
use vstd::utf8::{encode_utf8_first_scalar, encode_utf8_valid_utf8};
use vstd::utf8::partial_valid_partial_invalid_utf8;

verus! {

/// The encoding of a concatenation is the concatenation of the encodings.
pub proof fn lemma_encode_concat(a: Seq<char>, b: Seq<char>)
    ensures
        encode_utf8(a + b) == encode_utf8(a) + encode_utf8(b),
    decreases a.len(),
{
    if a.len() == 0 {
        assert(a + b =~= b);
        assert(encode_utf8(a) + encode_utf8(b) =~= encode_utf8(b));
    } else {
        assert((a + b).drop_first() =~= a.drop_first() + b);
        lemma_encode_concat(a.drop_first(), b);
        assert(encode_utf8(a + b) =~= encode_utf8(a) + encode_utf8(b));
    }
}

/// Two texts with the same encoding are the same text.
pub proof fn lemma_encode_injective(a: Seq<char>, b: Seq<char>)
    requires
        encode_utf8(a) == encode_utf8(b),
    ensures
        a == b,
{
    encode_utf8_decode_utf8(a);
    encode_utf8_decode_utf8(b);
}

/// One text is a prefix of another exactly when its encoding is a prefix of
/// the other's encoding.
pub proof fn lemma_encode_prefix(prefix: Seq<char>, text: Seq<char>)
    ensures
        prefix.is_prefix_of(text) <==> encode_utf8(prefix).is_prefix_of(encode_utf8(text)),
{
    if prefix.is_prefix_of(text) {
        let rest = text.skip(prefix.len() as int);
        assert(text =~= prefix + rest);
        lemma_encode_concat(prefix, rest);
        assert(encode_utf8(prefix) =~= encode_utf8(text).subrange(
            0,
            encode_utf8(prefix).len() as int,
        ));
    }
    if encode_utf8(prefix).is_prefix_of(encode_utf8(text)) {
        let bytes = encode_utf8(text);
        let split = encode_utf8(prefix).len() as int;
        let rest = bytes.subrange(split, bytes.len() as int);
        encode_utf8_valid_utf8(prefix);
        encode_utf8_valid_utf8(text);
        assert(bytes.subrange(0, split) =~= encode_utf8(prefix));
        if !vstd::utf8::valid_utf8(rest) {
            partial_valid_partial_invalid_utf8(bytes, split);
        }
        decode_utf8_encode_utf8(rest);
        let tail = decode_utf8(rest);
        lemma_encode_concat(prefix, tail);
        assert(encode_utf8(prefix + tail) =~= bytes);
        lemma_encode_injective(prefix + tail, text);
        assert(prefix =~= text.subrange(0, prefix.len() as int));
    }
}

/// A longer prefix of the same text has a longer encoding.
pub proof fn lemma_encode_longer(shorter: Seq<char>, longer: Seq<char>)
    requires
        shorter.is_prefix_of(longer),
        shorter.len() < longer.len(),
    ensures
        encode_utf8(shorter).len() < encode_utf8(longer).len(),
{
    let rest = longer.skip(shorter.len() as int);
    assert(longer =~= shorter + rest);
    lemma_encode_concat(shorter, rest);
    encode_utf8_first_scalar(rest);
    assert(encode_utf8(rest).len() > 0);
}

/// Whether `prefix` is a prefix of `text`.
pub fn starts_with(text: &str, prefix: &str) -> (res: bool)
    ensures
        res == prefix@.is_prefix_of(text@),
{
    let text_bytes: &[u8] = text.as_bytes();
    let prefix_bytes: &[u8] = prefix.as_bytes();
    proof {
        lemma_encode_prefix(prefix@, text@);
    }
    if prefix_bytes.len() > text_bytes.len() {
        return false;
    }
    let mut i: usize = 0;
    while i < prefix_bytes.len()
        invariant
            i <= prefix_bytes@.len() <= text_bytes@.len(),
            text_bytes@ == encode_utf8(text@),
            prefix_bytes@ == encode_utf8(prefix@),
            prefix@.is_prefix_of(text@) <==> prefix_bytes@.is_prefix_of(text_bytes@),
            forall|j: int| 0 <= j < i ==> prefix_bytes@[j] == text_bytes@[j],
        decreases prefix_bytes@.len() - i,
    {
        if prefix_bytes[i] != text_bytes[i] {
            assert(text_bytes@.subrange(0, prefix_bytes@.len() as int)[i as int]
                != prefix_bytes@[i as int]);
            return false;
        }
        i += 1;
    }
    assert(prefix_bytes@ =~= text_bytes@.subrange(0, prefix_bytes@.len() as int));
    true
}

/// Whether the two strings hold the same characters.
pub fn same_text(a: &str, b: &str) -> (res: bool)
    ensures
        res == (a@ == b@),
{
    let same_len: bool = a.as_bytes().len() == b.as_bytes().len();
    let res: bool = same_len && starts_with(a, b);
    proof {
        if res {
            lemma_encode_prefix(b@, a@);
            assert(encode_utf8(a@) =~= encode_utf8(b@));
            lemma_encode_injective(a@, b@);
        }
        if a@ == b@ {
            assert(b@ =~= a@.subrange(0, b@.len() as int));
        }
    }
    res
}

} // verus!

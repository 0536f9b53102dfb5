use vstd::prelude::*;
use vstd::utf8::{
    decode_utf8, decode_utf8_encode_utf8, encode_utf8, is_leading_byte_width_1,
    partial_valid_utf8_extend_ascii_block, valid_utf8,
};

verus! {

/// Lexicographic order on byte strings, as `Vec<u8>`'s `<` orders them: a proper
/// prefix sorts first.
pub open spec fn bytes_lt(a: Seq<u8>, b: Seq<u8>) -> bool
    decreases a.len(),
{
    if a.len() == 0 {
        b.len() > 0
    } else if b.len() == 0 {
        false
    } else if a[0] != b[0] {
        a[0] < b[0]
    } else {
        bytes_lt(a.drop_first(), b.drop_first())
    }
}

/// Append every byte of `src` to `dst`.
pub fn push_all(dst: &mut Vec<u8>, src: &[u8])
    ensures
        final(dst)@ == old(dst)@ + src@,
{
    let mut i: usize = 0;
    while i < src.len()
        invariant
            i <= src@.len(),
            dst@ == old(dst)@ + src@.subrange(0, i as int),
        decreases src@.len() - i,
    {
        dst.push(src[i]);
        i = i + 1;
        assert(src@.subrange(0, i as int) == src@.subrange(0, i - 1 as int).push(src@[i - 1]));
    }
    assert(src@.subrange(0, src@.len() as int) == src@);
}

/// Two byte strings that agree before index `j` and differ there are ordered
/// by that byte.
pub proof fn lemma_bytes_lt_first_difference(a: Seq<u8>, b: Seq<u8>, j: int)
    requires
        0 <= j < a.len(),
        j < b.len(),
        forall|i: int| 0 <= i < j ==> a[i] == b[i],
        a[j] < b[j],
    ensures
        bytes_lt(a, b),
    decreases j,
{
    if j > 0 {
        assert(a[0] == b[0]);
        lemma_bytes_lt_first_difference(a.drop_first(), b.drop_first(), j - 1);
    }
}

/// A shared prefix does not change how two byte strings compare.
pub proof fn lemma_bytes_lt_common_prefix(p: Seq<u8>, a: Seq<u8>, b: Seq<u8>)
    ensures
        bytes_lt(p + a, p + b) == bytes_lt(a, b),
    decreases p.len(),
{
    if p.len() > 0 {
        assert((p + a).drop_first() =~= p.drop_first() + a);
        assert((p + b).drop_first() =~= p.drop_first() + b);
        lemma_bytes_lt_common_prefix(p.drop_first(), a, b);
    } else {
        assert(p + a =~= a);
        assert(p + b =~= b);
    }
}

/// Between strings of one length, whatever follows does not change the order.
pub proof fn lemma_bytes_lt_extend(a: Seq<u8>, b: Seq<u8>, s: Seq<u8>, t: Seq<u8>)
    requires
        a.len() == b.len(),
        bytes_lt(a, b),
    ensures
        bytes_lt(a + s, b + t),
    decreases a.len(),
{
    if a[0] == b[0] {
        assert((a + s).drop_first() =~= a.drop_first() + s);
        assert((b + t).drop_first() =~= b.drop_first() + t);
        lemma_bytes_lt_extend(a.drop_first(), b.drop_first(), s, t);
    }
}

/// `bytes_lt` is a strict order: never both ways.
pub proof fn lemma_bytes_lt_asymmetric(a: Seq<u8>, b: Seq<u8>)
    ensures
        !(bytes_lt(a, b) && bytes_lt(b, a)),
    decreases a.len(),
{
    if a.len() > 0 && b.len() > 0 && a[0] == b[0] {
        lemma_bytes_lt_asymmetric(a.drop_first(), b.drop_first());
    }
}

/// Whether `p` is a prefix of `s`.
pub open spec fn has_prefix(s: Seq<u8>, p: Seq<u8>) -> bool {
    p.len() <= s.len() && s.subrange(0, p.len() as int) == p
}

/// Whether `bytes` starts with `prefix`.
pub fn starts_with(bytes: &[u8], prefix: &[u8]) -> (r: bool)
    ensures
        r == has_prefix(bytes@, prefix@),
{
    if prefix.len() > bytes.len() {
        return false;
    }
    let mut i: usize = 0;
    while i < prefix.len()
        invariant
            prefix@.len() <= bytes@.len(),
            i <= prefix@.len(),
            bytes@.subrange(0, i as int) == prefix@.subrange(0, i as int),
        decreases prefix@.len() - i,
    {
        if bytes[i] != prefix[i] {
            assert(bytes@.subrange(0, prefix@.len() as int)[i as int] != prefix@[i as int]);
            return false;
        }
        i = i + 1;
        assert(bytes@.subrange(0, i as int) =~= prefix@.subrange(0, i as int));
    }
    assert(prefix@.subrange(0, prefix@.len() as int) =~= prefix@);
    true
}

/// The bytes of `bytes` from `start` on.
pub fn tail(bytes: &[u8], start: usize) -> (r: Vec<u8>)
    requires
        start <= bytes@.len(),
    ensures
        r@ == bytes@.subrange(start as int, bytes@.len() as int),
{
    let mut r: Vec<u8> = Vec::new();
    let mut i: usize = start;
    while i < bytes.len()
        invariant
            start <= i <= bytes@.len(),
            r@ == bytes@.subrange(start as int, i as int),
        decreases bytes@.len() - i,
    {
        r.push(bytes[i]);
        i = i + 1;
        assert(r@ =~= bytes@.subrange(start as int, i as int));
    }
    r
}

/// Calls `std::str::from_utf8`, which accepts exactly the valid UTF-8 byte
/// strings and returns the text they encode.
#[verifier::external_body]
pub(crate) fn utf8_text(bytes: &[u8]) -> (r: Option<&str>)
    ensures
        r is Some <==> valid_utf8(bytes@),
        r matches Some(s) ==> s@ == decode_utf8(bytes@),
{
    std::str::from_utf8(bytes).ok()
}

/// What `String::from_utf8_lossy` makes of a byte string.
pub uninterp spec fn utf8_lossy_text(bytes: Seq<u8>) -> Seq<char>;

/// The text of a byte string read leniently: the decoded text when the bytes
/// are valid UTF-8, otherwise what `String::from_utf8_lossy` makes of them.
pub open spec fn lossy_text(bytes: Seq<u8>) -> Seq<char> {
    if valid_utf8(bytes) {
        decode_utf8(bytes)
    } else {
        utf8_lossy_text(bytes)
    }
}

/// Calls `String::from_utf8_lossy`: valid UTF-8 is decoded unchanged (as its
/// documentation states); which text an invalid byte string gives (invalid
/// sequences become U+FFFD) is left to the name `utf8_lossy_text`.
#[verifier::external_body]
pub(crate) fn utf8_lossy(bytes: &[u8]) -> (r: String)
    ensures
        r@ == lossy_text(bytes@),
        !valid_utf8(bytes@) ==> r@ == utf8_lossy_text(bytes@),
{
    String::from_utf8_lossy(bytes).into_owned()
}

/// Whether every byte is ASCII.
pub open spec fn all_ascii(s: Seq<u8>) -> bool {
    forall|i: int| 0 <= i < s.len() ==> #[trigger] s[i] < 128
}

/// ASCII bytes are valid UTF-8.
pub proof fn lemma_ascii_valid_utf8(s: Seq<u8>)
    requires
        all_ascii(s),
    ensures
        valid_utf8(s),
{
    assert(forall|i: int| 0 <= i < s.len() ==> #[trigger] is_leading_byte_width_1(s[i]));
    assert(s.subrange(0, 0) =~= Seq::<u8>::empty());
    partial_valid_utf8_extend_ascii_block(s, 0, s.len() as int);
    assert(s.subrange(0, s.len() as int) =~= s);
}

/// The text that valid UTF-8 bytes encode, as a `String`.
pub fn string_from_utf8(bytes: &[u8]) -> (r: String)
    requires
        valid_utf8(bytes@),
    ensures
        r@ == decode_utf8(bytes@),
        encode_utf8(r@) == bytes@,
{
    proof {
        decode_utf8_encode_utf8(bytes@);
    }
    utf8_text(bytes).unwrap().to_owned()
}

/// Append the UTF-8 bytes of `s`.
pub fn push_str(dst: &mut Vec<u8>, s: &str)
    ensures
        final(dst)@ == old(dst)@ + encode_utf8(s@),
{
    push_all(dst, s.as_bytes());
}

/// Whether two byte strings are equal.
pub fn bytes_equal(a: &[u8], b: &[u8]) -> (r: bool)
    ensures
        r == (a@ == b@),
{
    if a.len() != b.len() {
        return false;
    }
    let mut i: usize = 0;
    while i < a.len()
        invariant
            a@.len() == b@.len(),
            i <= a@.len(),
            forall|j: int| 0 <= j < i ==> a@[j] == b@[j],
        decreases a@.len() - i,
    {
        if a[i] != b[i] {
            return false;
        }
        i = i + 1;
    }
    assert(a@ =~= b@);
    true
}

/// Texts are equal exactly when their UTF-8 bytes are.
pub proof fn lemma_encode_utf8_injective(s: Seq<char>, t: Seq<char>)
    ensures
        (encode_utf8(s) == encode_utf8(t)) == (s == t),
{
    vstd::utf8::encode_utf8_decode_utf8(s);
    vstd::utf8::encode_utf8_decode_utf8(t);
}

/// Whether two texts are equal.
pub fn str_equal(a: &str, b: &str) -> (r: bool)
    ensures
        r == (a@ == b@),
{
    proof {
        lemma_encode_utf8_injective(a@, b@);
    }
    bytes_equal(a.as_bytes(), b.as_bytes())
}

/// Whether `b` occurs in `s`.
pub fn contains_byte(s: &[u8], b: u8) -> (r: bool)
    ensures
        r == s@.contains(b),
{
    let mut i: usize = 0;
    while i < s.len()
        invariant
            i <= s@.len(),
            forall|j: int| 0 <= j < i ==> s@[j] != b,
        decreases s@.len() - i,
    {
        if s[i] == b {
            assert(s@[i as int] == b);
            return true;
        }
        i = i + 1;
    }
    false
}

} // verus!

//! Building text out of ASCII bytes.
use vstd::prelude::*;

verus! {

/// All bytes are ASCII.
pub open spec fn is_ascii_bytes(bytes: Seq<u8>) -> bool {
    forall|i: int| 0 <= i < bytes.len() ==> #[trigger] bytes[i] < 128
}

/// The characters of ASCII bytes, one per byte.
pub open spec fn ascii_chars(bytes: Seq<u8>) -> Seq<char> {
    bytes.map_values(|b: u8| b as char)
}

/// Encoding the characters of ASCII bytes as UTF-8 gives the bytes back.
pub proof fn lemma_ascii_encoding(bytes: Seq<u8>)
    requires
        is_ascii_bytes(bytes),
    ensures
        vstd::utf8::encode_utf8(ascii_chars(bytes)) == bytes,
{
    let chars = ascii_chars(bytes);
    assert forall|i: int| 0 <= i < chars.len() implies '\0' <= #[trigger] chars[i] <= '\u{7f}' by {
        assert(chars[i] == bytes[i] as char);
        assert((bytes[i] as char) as u32 == bytes[i] as u32);
    }
    vstd::utf8::is_ascii_chars_encode_utf8(chars);
    assert forall|i: int| 0 <= i < bytes.len() implies #[trigger] vstd::utf8::encode_utf8(chars)[i] == bytes[i] by {
        assert(chars[i] == bytes[i] as char);
        assert(chars[i] as u8 == vstd::utf8::encode_utf8(chars)[i]);
    }
    assert(vstd::utf8::encode_utf8(chars) =~= bytes);
}

/// `String::from_utf8`: the bytes read as UTF-8. ASCII bytes are valid
/// UTF-8 with one character per byte, so the call succeeds and the string
/// holds those characters.
#[verifier::external_body]
pub(crate) fn ascii_string(bytes: Vec<u8>) -> (r: String)
    requires
        is_ascii_bytes(bytes@),
    ensures
        r@ == ascii_chars(bytes@),
{
    String::from_utf8(bytes).unwrap_or_default()
}

/// The first text followed by the second.
pub(crate) fn concat(first: &str, second: &str) -> (r: String)
    ensures
        r@ == first@ + second@,
{
    let mut r = String::from_str(first);
    r.append(second);
    r
}

/// The text followed by spaces up to `width` characters.
pub open spec fn pad(t: Seq<char>, width: nat) -> Seq<char> {
    if t.len() >= width {
        t
    } else {
        t + Seq::new((width - t.len()) as nat, |i: int| ' ')
    }
}

/// A text of `n` spaces.
pub(crate) fn spaces(n: usize) -> (r: String)
    ensures
        r@ == Seq::new(n as nat, |i: int| ' '),
{
    let mut bytes: Vec<u8> = Vec::new();
    let mut i: usize = 0;
    while i < n
        invariant
            i <= n,
            bytes@.len() == i,
            forall|j: int| 0 <= j < i ==> #[trigger] bytes@[j] == 32u8,
        decreases n - i,
    {
        bytes.push(32u8);
        i = i + 1;
    }
    let r = ascii_string(bytes);
    proof {
        assert(r@ =~= Seq::new(n as nat, |i: int| ' '));
    }
    r
}

/// The text padded with spaces to `width` characters; `len` is its length
/// in characters.
pub(crate) fn padded(text: &str, len: usize, width: usize) -> (r: String)
    requires
        len == text@.len(),
    ensures
        r@ == pad(text@, width as nat),
{
    if len >= width {
        let r = concat(text, "");
        proof {
            reveal_strlit("");
            assert(r@ =~= text@);
        }
        r
    } else {
        let fill = spaces(width - len);
        concat(text, fill.as_str())
    }
}

/// `String::from_utf8_lossy`: the bytes read as UTF-8, with a replacement
/// character for each invalid sequence. Bytes that are valid UTF-8 are
/// read exactly.
#[verifier::external_body]
pub(crate) fn text_from_bytes(bytes: &[u8]) -> (r: String)
    ensures
        vstd::utf8::valid_utf8(bytes@) ==> r@ == vstd::utf8::decode_utf8(bytes@),
{
    String::from_utf8_lossy(bytes).into_owned()
}

} // verus!

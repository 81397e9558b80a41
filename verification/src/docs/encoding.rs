//! Character encodings of text files: the conversions `encoding_rs` and std's UTF-8 check
//! perform, each behind a trusted wrapper, and the choice of an encoding, which is this
//! library's own.

use vstd::prelude::*;

verus! {

/// Whether `encoding_rs::Encoding::for_label` knows `label`.
pub uninterp spec fn encoding_label_known(label: Seq<char>) -> bool;

/// What `decode` of the encoding that `label` names makes of `bytes` (BOM sniffing,
/// malformed sequences replaced): the text and whether malformed sequences were met.
pub uninterp spec fn label_decoding(label: Seq<char>, bytes: Seq<u8>) -> (Seq<char>, bool);

/// What `encode` of the encoding that `label` names makes of `text`: the bytes and whether
/// characters the encoding cannot represent were met.
pub uninterp spec fn label_encoding(label: Seq<char>, text: Seq<char>) -> (Seq<u8>, bool);

/// What `encoding_rs::UTF_8.decode` makes of `bytes`.
pub uninterp spec fn utf8_decoding(bytes: Seq<u8>) -> (Seq<char>, bool);

/// What `encoding_rs::GBK.decode` makes of `bytes`.
pub uninterp spec fn gbk_decoding(bytes: Seq<u8>) -> (Seq<char>, bool);

/// What `encoding_rs::GB18030.decode` makes of `bytes`.
pub uninterp spec fn gb18030_decoding(bytes: Seq<u8>) -> (Seq<char>, bool);

/// What `std::str::from_utf8` reports for `bytes`: nothing when they are UTF-8, else the
/// error's `valid_up_to` and `error_len`.
pub uninterp spec fn utf8_check_result(bytes: Seq<u8>) -> Result<(), (nat, Option<nat>)>;

/// The bytes start with the UTF-8 byte order mark.
pub open spec fn has_utf8_bom(b: Seq<u8>) -> bool {
    b.len() >= 3 && b[0] == 0xEF && b[1] == 0xBB && b[2] == 0xBF
}

pub open spec fn decoded_view(r: (String, bool)) -> (Seq<char>, bool) {
    (r.0@, r.1)
}

/// `Encoding::for_label(label.as_bytes()).is_some()`.
#[verifier::external_body]
pub(crate) fn is_known_label(label: &str) -> (b: bool)
    ensures
        b == encoding_label_known(label@),
{
    encoding_rs::Encoding::for_label(label.as_bytes()).is_some()
}

/// `Encoding::for_label`, then `decode`: none when the label is unknown.
#[verifier::external_body]
pub(crate) fn decode_labelled(label: &str, bytes: &[u8]) -> (r: Option<(String, bool)>)
    ensures
        r is Some <==> encoding_label_known(label@),
        r matches Some(d) ==> decoded_view(d) == label_decoding(label@, bytes@),
{
    let enc = encoding_rs::Encoding::for_label(label.as_bytes())?;
    let (text, _, errors) = enc.decode(bytes);
    Some((text.into_owned(), errors))
}

/// `Encoding::for_label`, then `encode`: none when the label is unknown.
#[verifier::external_body]
pub(crate) fn encode_labelled(label: &str, text: &str) -> (r: Option<(Vec<u8>, bool)>)
    ensures
        r is Some <==> encoding_label_known(label@),
        r matches Some(e) ==> (e.0@, e.1) == label_encoding(label@, text@),
{
    let enc = encoding_rs::Encoding::for_label(label.as_bytes())?;
    let (bytes, _, unmappable) = enc.encode(text);
    Some((bytes.into_owned(), unmappable))
}

/// `encoding_rs::UTF_8.decode`. Input that is UTF-8 decodes to its characters without
/// errors, a leading byte order mark removed.
#[verifier::external_body]
pub(crate) fn decode_utf8_lossy(bytes: &[u8]) -> (r: (String, bool))
    ensures
        decoded_view(r) == utf8_decoding(bytes@),
        !has_utf8_bom(bytes@) && vstd::utf8::valid_utf8(bytes@) ==> decoded_view(r) == (vstd::utf8::decode_utf8(bytes@), false),
        has_utf8_bom(bytes@) && vstd::utf8::valid_utf8(bytes@.skip(3)) ==> decoded_view(r) == (vstd::utf8::decode_utf8(bytes@.skip(3)), false),
{
    let (text, _, errors) = encoding_rs::UTF_8.decode(bytes);
    (text.into_owned(), errors)
}

/// `encoding_rs::GBK.decode`.
#[verifier::external_body]
pub(crate) fn decode_gbk(bytes: &[u8]) -> (r: (String, bool))
    ensures
        decoded_view(r) == gbk_decoding(bytes@),
{
    let (text, _, errors) = encoding_rs::GBK.decode(bytes);
    (text.into_owned(), errors)
}

/// `encoding_rs::GB18030.decode`.
#[verifier::external_body]
pub(crate) fn decode_gb18030(bytes: &[u8]) -> (r: (String, bool))
    ensures
        decoded_view(r) == gb18030_decoding(bytes@),
{
    let (text, _, errors) = encoding_rs::GB18030.decode(bytes);
    (text.into_owned(), errors)
}

pub open spec fn check_view(r: Result<(), (usize, Option<usize>)>) -> Result<(), (nat, Option<nat>)> {
    match r {
        Ok(_) => Ok(()),
        Err((v, None)) => Err((v as nat, None)),
        Err((v, Some(l))) => Err((v as nat, Some(l as nat))),
    }
}

/// `std::str::from_utf8`, its error taken apart. It succeeds exactly on UTF-8 input; on
/// failure, the input up to `valid_up_to` is UTF-8.
#[verifier::external_body]
pub(crate) fn check_utf8(bytes: &[u8]) -> (r: Result<(), (usize, Option<usize>)>)
    ensures
        check_view(r) == utf8_check_result(bytes@),
        r is Ok <==> vstd::utf8::valid_utf8(bytes@),
        r matches Err((v, _)) ==> v <= bytes@.len() && vstd::utf8::valid_utf8(bytes@.take(v as int)),
{
    match std::str::from_utf8(bytes) {
        Ok(_) => Ok(()),
        Err(e) => Err((e.valid_up_to(), e.error_len())),
    }
}

} // verus!

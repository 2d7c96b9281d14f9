//! Format identification: classify a file's leading bytes into a closed set
//! of formats by magic-number sniffing, with a case-insensitive scan for a
//! vector-markup root tag as the fallback for textual or unknown content.

use vstd::prelude::*;
use crate::strutil::{starts_with_chars, str_eq_str, str_starts_with_str};

verus! {

/// Closed set of formats the pipeline handles, derived once per file from
/// content sniffing, never from the file extension.
#[derive(Clone, Copy, Debug, PartialEq, Eq, Structural)]
pub enum ImageFormat {
    Svg,
    Gif,
    Static,
}

/// The MIME type that magic-number sniffing reports for the given leading
/// bytes, if any; the result depends on the bytes alone.
pub uninterp spec fn sniffed_mime(data: Seq<u8>) -> Option<Seq<char>>;

/// Relies on infer::get: sniffs the MIME type from magic numbers in the
/// leading bytes; a pure function of the bytes.
#[verifier::external_body]
fn sniff_mime(data: &[u8]) -> (r: Option<String>)
    ensures
        r is Some <==> sniffed_mime(data@) is Some,
        r is Some ==> r->0@ == sniffed_mime(data@)->0,
{
    infer::get(data).map(|k| k.mime_type().to_owned())
}

/// The MIME label the classifier works with: the sniffed type, or the
/// placeholder used when sniffing recognizes nothing.
pub open spec fn mime_label(data: Seq<u8>) -> Seq<char> {
    match sniffed_mime(data) {
        Some(m) => m,
        None => "unknown/raw"@,
    }
}

/// ASCII lower-casing of a single byte.
pub open spec fn lower_byte(b: u8) -> u8 {
    if 65 <= b && b <= 90 {
        (b + 32) as u8
    } else {
        b
    }
}

/// The four bytes at offset `i` spell the vector-markup root tag `<svg`,
/// compared case-insensitively.
pub open spec fn svg_tag_at(data: Seq<u8>, i: int) -> bool {
    &&& 0 <= i
    &&& i + 4 <= data.len()
    &&& data[i] == 60u8
    &&& lower_byte(data[i + 1]) == 115u8
    &&& lower_byte(data[i + 2]) == 118u8
    &&& lower_byte(data[i + 3]) == 103u8
}

/// The vector-markup root tag occurs somewhere in the bytes.
pub open spec fn contains_svg_tag(data: Seq<u8>) -> bool {
    exists|i: int| svg_tag_at(data, i)
}

fn lower_byte_exec(b: u8) -> (r: u8)
    ensures
        r == lower_byte(b),
{
    if 65 <= b && b <= 90 {
        b + 32
    } else {
        b
    }
}

/// Case-insensitive scan of the bytes for the vector-markup root tag.
pub fn has_svg_marker(data: &[u8]) -> (r: bool)
    ensures
        r == contains_svg_tag(data@),
{
    let n: usize = data.len();
    if n < 4 {
        proof {
            assert(forall|i: int| !svg_tag_at(data@, i));
        }
        return false;
    }
    let mut i: usize = 0;
    while i <= n - 4
        invariant
            n == data@.len(),
            4 <= n,
            i <= n - 3,
            forall|j: int| 0 <= j < i ==> !svg_tag_at(data@, j),
        decreases n - i,
    {
        if data[i] == 60u8 && lower_byte_exec(data[i + 1]) == 115u8 && lower_byte_exec(
            data[i + 2],
        ) == 118u8 && lower_byte_exec(data[i + 3]) == 103u8 {
            proof {
                assert(svg_tag_at(data@, i as int));
            }
            return true;
        }
        i = i + 1;
    }
    proof {
        assert(forall|j: int| j > n - 4 ==> !svg_tag_at(data@, j));
    }
    false
}

/// What the classifier decides for the given leading bytes: a format, or
/// nothing when the file is unrecognized and must be skipped.
pub open spec fn identify_spec(data: Seq<u8>) -> Option<ImageFormat> {
    let m = mime_label(data);
    if m == "image/svg+xml"@ {
        Some(ImageFormat::Svg)
    } else if m == "image/gif"@ {
        Some(ImageFormat::Gif)
    } else if starts_with_chars(m, "image/"@) {
        Some(ImageFormat::Static)
    } else if contains_svg_tag(data) {
        Some(ImageFormat::Svg)
    } else {
        None
    }
}

/// Classify leading bytes: magic-number sniffing first, then the
/// case-insensitive vector-tag scan for textual or unknown content. An
/// unrecognized file yields the MIME label as the error, and the caller
/// skips it rather than attempt a decode.
pub fn identify_format(data: &[u8]) -> (r: Result<ImageFormat, String>)
    ensures
        r is Ok <==> identify_spec(data@) is Some,
        r is Ok ==> r->Ok_0 == identify_spec(data@)->0,
        r is Err ==> r->Err_0@ == mime_label(data@),
{
    let mime: String = match sniff_mime(data) {
        Some(m) => m,
        None => unknown_mime_label(),
    };
    if str_eq_str(mime.as_str(), "image/svg+xml") {
        Ok(ImageFormat::Svg)
    } else if str_eq_str(mime.as_str(), "image/gif") {
        Ok(ImageFormat::Gif)
    } else if str_starts_with_str(mime.as_str(), "image/") {
        Ok(ImageFormat::Static)
    } else if has_svg_marker(data) {
        Ok(ImageFormat::Svg)
    } else {
        Err(mime)
    }
}

fn unknown_mime_label() -> (r: String)
    ensures
        r@ == "unknown/raw"@,
{
    let r = "unknown/raw".to_owned();
    r
}

} // verus!

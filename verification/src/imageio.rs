//! The byte- and name-level parts of reading and writing images: which format a file name
//! asks for, and the header of a PFM file.
use vstd::prelude::*;
use vstd::string::*;
use vstd::utf8::*;

use crate::fileutil::{equal_ignoring_ascii_case, extension_of, file_extension};
use crate::parser::str_from_utf8;
use crate::text::{all_digits, ascii_lower, float_literal, is_digit, is_float_literal};

verus! {

broadcast use vstd::utf8::encode_utf8_decode_utf8;

/// The image file formats, by extension.
#[derive(Debug, Clone, Copy, PartialEq, Eq, Structural)]
pub enum ImageFormat {
    /// `.png`
    Png,
    /// `.exr`
    Exr,
    /// `.tga`
    Tga,
    /// `.pfm`
    Pfm,
    /// Any other extension.
    Unknown,
}

/// The format named by the extension `ext`, ignoring ASCII case.
pub open spec fn format_named(ext: Seq<char>) -> ImageFormat {
    if equal_ignoring_ascii_case(ext, "png"@) {
        ImageFormat::Png
    } else if equal_ignoring_ascii_case(ext, "exr"@) {
        ImageFormat::Exr
    } else if equal_ignoring_ascii_case(ext, "tga"@) {
        ImageFormat::Tga
    } else if equal_ignoring_ascii_case(ext, "pfm"@) {
        ImageFormat::Pfm
    } else {
        ImageFormat::Unknown
    }
}

/// The format named by the extension `ext`, ignoring ASCII case.
pub fn image_format(ext: &str) -> (r: ImageFormat)
    ensures
        r == format_named(ext@),
{
    if crate::fileutil::eq_ignore_ascii_case(ext, "png") {
        ImageFormat::Png
    } else if crate::fileutil::eq_ignore_ascii_case(ext, "exr") {
        ImageFormat::Exr
    } else if crate::fileutil::eq_ignore_ascii_case(ext, "tga") {
        ImageFormat::Tga
    } else if crate::fileutil::eq_ignore_ascii_case(ext, "pfm") {
        ImageFormat::Pfm
    } else {
        ImageFormat::Unknown
    }
}

/// The format asked for by the extension of the file `name`; `None` when it has none.
pub fn file_format(name: &str) -> (r: Option<ImageFormat>)
    ensures
        match extension_of(name@) {
            Some(e) => r == Some(format_named(e)),
            None => r is None,
        },
{
    match file_extension(name) {
        Some(e) => Some(image_format(e.as_str())),
        None => None,
    }
}

/// `s` with its ASCII letters in lower case.
pub open spec fn ascii_lowered(s: Seq<char>) -> Seq<char> {
    s.map_values(|c: char| ascii_lower(c))
}

/// Calls `str::to_ascii_lowercase`, which its documentation says maps the ASCII letters `A`
/// to `Z` to `a` to `z` and leaves every other character unchanged.
#[verifier::external_body]
fn to_ascii_lower(s: &str) -> (r: String)
    ensures
        r@ == ascii_lowered(s@),
{
    s.to_ascii_lowercase()
}

/// What reading an image file does, as chosen by the extension of its name.
#[derive(Debug, PartialEq, Eq)]
pub enum ImageRead {
    /// Decode the file as a PNG image.
    Png,
    /// Read the file as a PFM image.
    Pfm,
    /// Reading this format is planned but not implemented; holds the dotted extension.
    ReadNotImplemented(String),
    /// The extension is not known; holds it in lower case, empty when the name has none.
    UnknownExtension(String),
}

/// How `name` is read: PNG and PFM files are decoded; EXR and TGA files are refused as not
/// implemented yet; any other extension, or none, is refused as unknown.
pub fn image_read(name: &str) -> (r: ImageRead)
    ensures
        match extension_of(name@) {
            None => r matches ImageRead::UnknownExtension(s) && s@ == Seq::<char>::empty(),
            Some(e) => match format_named(e) {
                ImageFormat::Png => r is Png,
                ImageFormat::Pfm => r is Pfm,
                ImageFormat::Exr => r matches ImageRead::ReadNotImplemented(s) && s@ == ".exr"@,
                ImageFormat::Tga => r matches ImageRead::ReadNotImplemented(s) && s@ == ".tga"@,
                ImageFormat::Unknown => r matches ImageRead::UnknownExtension(s) && s@
                    == ascii_lowered(e),
            },
        },
{
    match file_extension(name) {
        None => ImageRead::UnknownExtension(String::new()),
        Some(e) => match image_format(e.as_str()) {
            ImageFormat::Png => ImageRead::Png,
            ImageFormat::Pfm => ImageRead::Pfm,
            ImageFormat::Exr => ImageRead::ReadNotImplemented(".exr".to_owned()),
            ImageFormat::Tga => ImageRead::ReadNotImplemented(".tga".to_owned()),
            ImageFormat::Unknown => ImageRead::UnknownExtension(to_ascii_lower(e.as_str())),
        },
    }
}

/// Space, newline and tab separate the words of a PFM header.
pub open spec fn white(b: u8) -> bool {
    b == 0x20 || b == 0x0a || b == 0x09
}

/// Whether `b` separates the words of a PFM header.
pub fn is_whitespace(b: u8) -> (r: bool)
    ensures
        r == white(b),
{
    b == 0x20 || b == 0x0a || b == 0x09
}

/// Why a PFM header could not be read.
#[derive(Debug, Clone, PartialEq, Eq)]
pub enum PfmError {
    /// The data ended before the header did.
    UnexpectedEof,
    /// A word of the header is not UTF-8.
    NotUtf8,
    /// The first word is neither `PF` nor `Pf`; holds it.
    InvalidHeader(String),
    /// The width or height is not an unsigned integer.
    ParseInt,
    /// The scale is not a number.
    ParseFloat,
}

/// The abstract contents of a `PfmError`.
pub enum PfmErrorView {
    UnexpectedEof,
    NotUtf8,
    InvalidHeader(Seq<char>),
    ParseInt,
    ParseFloat,
}

impl View for PfmError {
    type V = PfmErrorView;

    open spec fn view(&self) -> PfmErrorView {
        match self {
            PfmError::UnexpectedEof => PfmErrorView::UnexpectedEof,
            PfmError::NotUtf8 => PfmErrorView::NotUtf8,
            PfmError::InvalidHeader(s) => PfmErrorView::InvalidHeader(s@),
            PfmError::ParseInt => PfmErrorView::ParseInt,
            PfmError::ParseFloat => PfmErrorView::ParseFloat,
        }
    }
}

/// The position of the first separator at or after `i`, if any.
pub open spec fn word_end(buf: Seq<u8>, i: int) -> Option<int>
    decreases buf.len() - i,
{
    if i < 0 || i >= buf.len() {
        None
    } else if white(buf[i]) {
        Some(i)
    } else {
        word_end(buf, i + 1)
    }
}

/// The word that starts at `pos`, with the position after the separator that ends it.
pub open spec fn word_at(buf: Seq<u8>, pos: int) -> Result<(Seq<char>, int), PfmErrorView> {
    match word_end(buf, pos) {
        None => Err(PfmErrorView::UnexpectedEof),
        Some(e) => {
            let bytes = buf.subrange(pos, e);
            if valid_utf8(bytes) {
                Ok((decode_utf8(bytes), e + 1))
            } else {
                Err(PfmErrorView::NotUtf8)
            }
        },
    }
}

/// Reads the word that starts at `pos`: the bytes up to the next separator, which is
/// consumed too.  Returns the word and the position after the separator.
pub fn read_word(buf: &[u8], pos: usize) -> (r: Result<(String, usize), PfmError>)
    requires
        pos <= buf@.len(),
    ensures
        match word_at(buf@, pos as int) {
            Ok((w, next)) => r matches Ok((word, n)) && word@ == w && n == next,
            Err(e) => r matches Err(err) && err@ == e,
        },
        r matches Ok((_, n)) ==> n <= buf@.len(),
{
    let mut i = pos;
    while i < buf.len() && !is_whitespace(buf[i])
        invariant
            pos <= i <= buf@.len(),
            word_end(buf@, i as int) == word_end(buf@, pos as int),
        decreases buf@.len() - i,
    {
        i = i + 1;
    }
    if i == buf.len() {
        return Err(PfmError::UnexpectedEof);
    }
    match str_from_utf8(&buf[pos..i]) {
        Ok(s) => Ok((s.to_owned(), i + 1)),
        Err(_) => Err(PfmError::NotUtf8),
    }
}

/// The number of channels a PFM header word announces: `PF` colour, `Pf` grey.
pub open spec fn channels_named(hdr: Seq<char>) -> Option<usize> {
    if hdr == "PF"@ {
        Some(3)
    } else if hdr == "Pf"@ {
        Some(1)
    } else {
        None
    }
}

/// The number of channels a PFM header word announces.
pub fn pfm_channels(hdr: &str) -> (r: Option<usize>)
    ensures
        r == channels_named(hdr@),
{
    if crate::text::str_eq(hdr, "PF") {
        Some(3)
    } else if crate::text::str_eq(hdr, "Pf") {
        Some(1)
    } else {
        None
    }
}

/// The value of the decimal digits `s`.
pub open spec fn decimal_value(s: Seq<char>) -> int
    decreases s.len(),
{
    if s.len() == 0 {
        0
    } else {
        10 * decimal_value(s.drop_last()) + (s.last() as int - '0' as int)
    }
}

/// `s` without a leading `+`.
pub open spec fn unsigned_part(s: Seq<char>) -> Seq<char> {
    if s.len() > 0 && s[0] == '+' {
        s.drop_first()
    } else {
        s
    }
}

/// The digits of an unsigned integer literal: an optional `+` followed by at least one
/// decimal digit.
pub open spec fn unsigned_digits(s: Seq<char>) -> Option<Seq<char>> {
    if unsigned_part(s).len() > 0 && all_digits(unsigned_part(s)) {
        Some(unsigned_part(s))
    } else {
        None
    }
}

/// The `usize` written by `s`, as `usize::from_str` reads it: an optional `+` and decimal
/// digits, with a value that fits.
pub open spec fn usize_value(s: Seq<char>) -> Option<usize> {
    match unsigned_digits(s) {
        Some(d) => if decimal_value(d) <= usize::MAX {
            Some(decimal_value(d) as usize)
        } else {
            None
        },
        None => None,
    }
}

proof fn lemma_decimal_value_nonneg(s: Seq<char>)
    requires
        forall|i: int| 0 <= i < s.len() ==> is_digit(#[trigger] s[i]),
    ensures
        decimal_value(s) >= 0,
    decreases s.len(),
{
    if s.len() > 0 {
        let t = s.drop_last();
        assert forall|i: int| 0 <= i < t.len() implies is_digit(#[trigger] t[i]) by {
            assert(t[i] == s[i]);
        }
        lemma_decimal_value_nonneg(t);
        assert(is_digit(s[s.len() - 1]));
    }
}

proof fn lemma_decimal_value_grows(s: Seq<char>, i: int)
    requires
        0 <= i < s.len(),
        forall|j: int| 0 <= j < s.len() ==> is_digit(#[trigger] s[j]),
    ensures
        decimal_value(s.take(i)) <= decimal_value(s.take(i + 1)),
{
    let t = s.take(i + 1);
    assert(t.drop_last() =~= s.take(i));
    assert forall|j: int| 0 <= j < s.take(i).len() implies is_digit(#[trigger] s.take(i)[j]) by {
        assert(s.take(i)[j] == s[j]);
    }
    lemma_decimal_value_nonneg(s.take(i));
    assert(is_digit(s[i]));
}

proof fn lemma_decimal_prefix_le(d: Seq<char>, k: int)
    requires
        0 <= k <= d.len(),
        forall|j: int| 0 <= j < d.len() ==> is_digit(#[trigger] d[j]),
    ensures
        decimal_value(d.take(k)) <= decimal_value(d),
    decreases d.len() - k,
{
    if k < d.len() {
        lemma_decimal_value_grows(d, k);
        lemma_decimal_prefix_le(d, k + 1);
    } else {
        assert(d.take(k) =~= d);
    }
}

/// Reads the unsigned integer written by `s`.
pub fn parse_usize(s: &str) -> (r: Option<usize>)
    ensures
        r == usize_value(s@),
{
    let n = s.unicode_len();
    let mut start: usize = 0;
    if n > 0 && s.get_char(0) == '+' {
        start = 1;
    }
    let ghost d = unsigned_part(s@);
    proof {
        assert(d =~= s@.skip(start as int));
    }
    if start == n {
        return None;
    }
    let mut value: usize = 0;
    let mut i: usize = start;
    while i < n
        invariant
            n == s@.len(),
            start < n,
            start <= i <= n,
            d == s@.skip(start as int),
            d == unsigned_part(s@),
            forall|j: int| 0 <= j < i - start ==> is_digit(#[trigger] d[j]),
            value == decimal_value(d.take(i - start)),
        decreases n - i,
    {
        let c = s.get_char(i);
        if !('0' <= c && c <= '9') {
            proof {
                assert(!is_digit(d[i - start]));
                assert(!all_digits(d));
            }
            return None;
        }
        let digit = (c as u32 - '0' as u32) as usize;
        proof {
            assert(d.take(i - start + 1).drop_last() =~= d.take(i - start));
            assert(d.take(i - start + 1).last() == c);
        }
        if value > (usize::MAX - digit) / 10 {
            proof {
                assert forall|j: int| 0 <= j < i - start + 1 implies is_digit(#[trigger] d.take(i - start + 1)[j]) by {
                    assert(d.take(i - start + 1)[j] == d[j]);
                }
                lemma_decimal_value_nonneg(d.take(i - start));
                assert(decimal_value(d.take(i - start + 1)) > usize::MAX) by (nonlinear_arith)
                    requires
                        value > (usize::MAX - digit) / 10,
                        decimal_value(d.take(i - start + 1)) == 10 * value + digit,
                        digit <= 9,
                ;
                if all_digits(d) {
                    lemma_decimal_prefix_le(d, i - start + 1);
                }
            }
            return None;
        }
        value = value * 10 + digit;
        i = i + 1;
    }
    proof {
        assert(d.take(n - start) =~= d);
        lemma_decimal_value_nonneg(d);
    }
    Some(value)
}

/// The header of a PFM file.
#[derive(Debug, Clone, PartialEq, Eq)]
pub struct PfmHeader {
    /// 3 for colour, 1 for grey.
    pub n_channels: usize,
    /// Width in pixels.
    pub width: usize,
    /// Height in pixels.
    pub height: usize,
    /// The scale, as its number literal; negative means little-endian data.
    pub scale: String,
    /// Where the pixel data starts.
    pub data_start: usize,
}

/// The header of the PFM file `buf`: the channel word, the width, the height and the
/// scale, each followed by a separator; the first failure decides the error.
pub open spec fn pfm_header(buf: Seq<u8>) -> Result<(usize, usize, usize, Seq<char>, int), PfmErrorView> {
    match word_at(buf, 0) {
        Err(e) => Err(e),
        Ok((hdr, p1)) => match channels_named(hdr) {
            None => Err(PfmErrorView::InvalidHeader(hdr)),
            Some(c) => match word_at(buf, p1) {
                Err(e) => Err(e),
                Ok((w, p2)) => match usize_value(w) {
                    None => Err(PfmErrorView::ParseInt),
                    Some(width) => match word_at(buf, p2) {
                        Err(e) => Err(e),
                        Ok((h, p3)) => match usize_value(h) {
                            None => Err(PfmErrorView::ParseInt),
                            Some(height) => match word_at(buf, p3) {
                                Err(e) => Err(e),
                                Ok((scale, p4)) => if float_literal(scale) {
                                    Ok((c, width, height, scale, p4))
                                } else {
                                    Err(PfmErrorView::ParseFloat)
                                },
                            },
                        },
                    },
                },
            },
        },
    }
}

/// A PFM header that is read has the channel count its first word announces: three for
/// `PF` (colour) and one for `Pf` (grey); any other first word is refused.  The width, the
/// height and the scale are the second, third and fourth words, in that order, and the pixel
/// data starts after the fourth word's separator.
pub proof fn law_pfm_channels_announced(buf: Seq<u8>)
    ensures
        pfm_header(buf) matches Ok((c, w, h, scale, start)) ==> (word_at(buf, 0) matches Ok((hdr, p))
            && ((hdr == "PF"@ && c == 3) || (hdr == "Pf"@ && c == 1))),
        pfm_header(buf) matches Ok((c, w, h, scale, start)) ==> {
            &&& word_at(buf, 0) matches Ok((hdr, p1))
            &&& word_at(buf, p1) matches Ok((ws, p2))
            &&& usize_value(ws) == Some(w)
            &&& word_at(buf, p2) matches Ok((hs, p3))
            &&& usize_value(hs) == Some(h)
            &&& word_at(buf, p3) matches Ok((ss, p4))
            &&& ss == scale
            &&& float_literal(scale)
            &&& start == p4
        },
        word_at(buf, 0) matches Ok((hdr, p)) ==> (hdr != "PF"@ && hdr != "Pf"@ ==> pfm_header(buf)
            == Err::<(usize, usize, usize, Seq<char>, int), PfmErrorView>(PfmErrorView::InvalidHeader(hdr))),
{
}

/// Reads the header of a PFM file: the channel word, the width, the height and the scale,
/// each followed by a separator.
pub fn read_pfm_header(buf: &[u8]) -> (r: Result<PfmHeader, PfmError>)
    ensures
        match pfm_header(buf@) {
            Ok((c, w, h, scale, start)) => r matches Ok(hd) && hd.n_channels == c && hd.width
                == w && hd.height == h && hd.scale@ == scale && hd.data_start == start,
            Err(e) => r matches Err(err) && err@ == e,
        },
{
    let (hdr, pos) = match read_word(buf, 0) {
        Ok(w) => w,
        Err(e) => return Err(e),
    };
    let n_channels = match pfm_channels(hdr.as_str()) {
        Some(n) => n,
        None => return Err(PfmError::InvalidHeader(hdr)),
    };
    let (w, pos) = match read_word(buf, pos) {
        Ok(w) => w,
        Err(e) => return Err(e),
    };
    let width = match parse_usize(w.as_str()) {
        Some(v) => v,
        None => return Err(PfmError::ParseInt),
    };
    let (h, pos) = match read_word(buf, pos) {
        Ok(w) => w,
        Err(e) => return Err(e),
    };
    let height = match parse_usize(h.as_str()) {
        Some(v) => v,
        None => return Err(PfmError::ParseInt),
    };
    let (scale, pos) = match read_word(buf, pos) {
        Ok(w) => w,
        Err(e) => return Err(e),
    };
    if !is_float_literal(scale.as_str()) {
        return Err(PfmError::ParseFloat);
    }
    Ok(PfmHeader { n_channels, width, height, scale, data_start: pos })
}

} // verus!

use vstd::prelude::*;

verus! {

#[verifier::external_type_specification]
#[verifier::external_body]
pub struct ExFont(fontdue::Font);

/// Whether fontdue accepts `data` as a font under its default settings.
pub uninterp spec fn font_parses(data: Seq<u8>) -> bool;

/// Relies on `fontdue::Font::from_bytes` with `FontSettings::default()`:
/// whether it succeeds depends on the bytes alone.
#[verifier::external_body]
fn font_from_bytes(data: &[u8]) -> (r: Result<fontdue::Font, &'static str>)
    ensures
        r is Ok == font_parses(data@),
{
    fontdue::Font::from_bytes(data, fontdue::FontSettings::default())
}

/// Why a font could not be had.
#[derive(Debug)]
pub enum FontParseError {
    /// fontdue refused the data, with this message.
    ParseError(&'static str),
}

/// Parses `data` as a font.
pub fn parse_font(data: &[u8]) -> (r: Result<fontdue::Font, FontParseError>)
    ensures
        r is Ok == font_parses(data@),
{
    match font_from_bytes(data) {
        Ok(font) => Ok(font),
        Err(s) => Err(FontParseError::ParseError(s)),
    }
}

} // verus!

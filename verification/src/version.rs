//! Protocol versions: `MAJOR.MINOR`, each part a `u16`.
use vstd::prelude::*;

use crate::error::{ErrorView, ProtocolError, ProtocolErrorExt, rview};
use crate::text::{
    chars_to_string, decimal, decimal_string, lemma_decimal_parse, lemma_decimal_split,
    lemma_decimal_trim, parse_u16, spec_parse_unsigned, spec_trim, split_once_exact, split_pair,
    to_chars, trim,
};

verus! {

#[derive(Default, Debug, Clone, Copy, PartialEq, Eq)]
pub struct Version {
    pub major: u16,
    pub minor: u16,
}

impl View for Version {
    type V = (u16, u16);

    open spec fn view(&self) -> (u16, u16) {
        (self.major, self.minor)
    }
}

/// What a version string reads as: exactly one `.`, with a `u16` on each
/// side (white space around either part is ignored).
pub open spec fn spec_version(s: Seq<char>) -> Result<(u16, u16), ErrorView> {
    match split_pair(s, '.') {
        None => Err(ErrorView::InvalidVersionFormat),
        Some((major, minor)) => match spec_parse_unsigned(spec_trim(major), 65535) {
            None => Err(ErrorView::InvalidMajor),
            Some(a) => match spec_parse_unsigned(spec_trim(minor), 65535) {
                None => Err(ErrorView::InvalidMinor),
                Some(b) => Ok((a as u16, b as u16)),
            },
        },
    }
}

impl Version {
    /// Reads a version from text such as `"1.0"`.
    pub fn parse(s: &str) -> (r: Result<Version, ProtocolError>)
        ensures
            rview(r) == spec_version(s@),
    {
        let chars = to_chars(s);
        let (major, minor) = match split_once_exact(chars.as_slice(), '.') {
            Some(parts) => parts,
            None => return Err(ProtocolError::InvalidVersionFormat),
        };
        let major = chars_to_string(trim(major.as_slice()).as_slice());
        let minor = chars_to_string(trim(minor.as_slice()).as_slice());
        let major = match parse_u16(major.as_str()) {
            Ok(v) => v,
            Err(_) => return Err(ProtocolError::InvalidMajor),
        };
        let minor = match parse_u16(minor.as_str()) {
            Ok(v) => v,
            Err(_) => return Err(ProtocolError::InvalidMinor),
        };
        Ok(Version { major, minor })
    }
}

/// How a version is written: `MAJOR.MINOR` in decimal.
pub open spec fn version_text(v: (u16, u16)) -> Seq<char> {
    decimal(v.0 as nat) + seq!['.'] + decimal(v.1 as nat)
}

/// A version reads back from its text.
pub proof fn lemma_version_text_roundtrip(v: (u16, u16))
    ensures
        spec_version(version_text(v)) == Ok::<(u16, u16), ErrorView>(v),
{
    lemma_decimal_split(v.0 as nat, v.1 as nat, '.');
    lemma_decimal_trim(v.0 as nat);
    lemma_decimal_trim(v.1 as nat);
    lemma_decimal_parse(v.0 as nat, 65535);
    lemma_decimal_parse(v.1 as nat, 65535);
}

impl Version {
    /// The version as text, such as `"1.0"`.
    pub fn to_text(&self) -> (r: String)
        ensures
            r@ == version_text(self@),
    {
        proof {
            reveal_strlit(".");
        }
        let mut r = decimal_string(self.major as usize);
        r.append(".");
        let minor = decimal_string(self.minor as usize);
        r.append(minor.as_str());
        r
    }
}

impl core::str::FromStr for Version {
    type Err = ProtocolError;

    fn from_str(s: &str) -> (r: Result<Self, Self::Err>)
        ensures
            rview(r) == spec_version(s@),
    {
        Version::parse(s)
    }
}

impl ProtocolErrorExt<Version> for Result<Version, ProtocolError> {
    fn or_save_to(self, errors: &mut Vec<ProtocolError>) -> (r: Version)
        ensures
            match self {
                Ok(v) => r == v && final(errors)@ == old(errors)@,
                Err(e) => r@ == (0u16, 0u16) && final(errors)@ == old(errors)@.push(e),
            },
    {
        match self {
            Ok(value) => value,
            Err(error) => {
                errors.push(error);
                Version { major: 0, minor: 0 }
            },
        }
    }
}

} // verus!

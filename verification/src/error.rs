//! Errors reported while compiling a protocol definition.
use vstd::prelude::*;

verus! {

/// The error type of the XML parser.
#[verifier::external_type_specification]
#[verifier::external_body]
pub struct ExXmlError(roxmltree::Error);

/// The error type of std's integer parsing.
#[verifier::external_type_specification]
#[verifier::external_body]
pub struct ExParseIntError(std::num::ParseIntError);

/// Parser errors (P0xx), global limits (P1xx) and protocol limits (P2xx).
#[derive(Debug, PartialEq, Eq)]
pub enum ProtocolError {
    // --- Parser errors ---
    Xml(roxmltree::Error),
    UnknownTag(String),
    MissingProtocolToken,
    MissingAttribute { tag: String, attr: String },
    InvalidVersionFormat,
    InvalidMajor,
    InvalidMinor,
    UnexpectedToken(String),
    InvalidAccess(String),
    Syntax { src: String, should_be: String },
    IntParse(std::num::ParseIntError),
    // --- Global Limits ---
    TooManyUniqueStrings,
    InvalidSize(usize),
    AlignIsNotPowerOfTwo(u8),
    ForbiddenAlign(u8),
    ForbiddenRawAlign(u8),
    // --- Protocol Limits ---
    TooManyStructs,
    TooManyEnums,
    TooManyFields,
    TooManyVariants,
    InvalidEnumStorageType,
    StructFieldLimitExceeded(String),
    FreeBytesLimitExceeded(String),
    TooManyGroups,
    TooManyMessages,
}

/// The mathematical model of a [`ProtocolError`]: text payloads are
/// character sequences.
pub enum ErrorView {
    Xml(roxmltree::Error),
    UnknownTag(Seq<char>),
    MissingProtocolToken,
    MissingAttribute { tag: Seq<char>, attr: Seq<char> },
    InvalidVersionFormat,
    InvalidMajor,
    InvalidMinor,
    UnexpectedToken(Seq<char>),
    InvalidAccess(Seq<char>),
    Syntax { src: Seq<char>, should_be: Seq<char> },
    IntParse(std::num::ParseIntError),
    TooManyUniqueStrings,
    InvalidSize(usize),
    AlignIsNotPowerOfTwo(u8),
    ForbiddenAlign(u8),
    ForbiddenRawAlign(u8),
    TooManyStructs,
    TooManyEnums,
    TooManyFields,
    TooManyVariants,
    InvalidEnumStorageType,
    StructFieldLimitExceeded(Seq<char>),
    FreeBytesLimitExceeded(Seq<char>),
    TooManyGroups,
    TooManyMessages,
}

impl View for ProtocolError {
    type V = ErrorView;

    open spec fn view(&self) -> ErrorView {
        match self {
            ProtocolError::Xml(e) => ErrorView::Xml(*e),
            ProtocolError::UnknownTag(s) => ErrorView::UnknownTag(s@),
            ProtocolError::MissingProtocolToken => ErrorView::MissingProtocolToken,
            ProtocolError::MissingAttribute { tag, attr } => ErrorView::MissingAttribute {
                tag: tag@,
                attr: attr@,
            },
            ProtocolError::InvalidVersionFormat => ErrorView::InvalidVersionFormat,
            ProtocolError::InvalidMajor => ErrorView::InvalidMajor,
            ProtocolError::InvalidMinor => ErrorView::InvalidMinor,
            ProtocolError::UnexpectedToken(s) => ErrorView::UnexpectedToken(s@),
            ProtocolError::InvalidAccess(s) => ErrorView::InvalidAccess(s@),
            ProtocolError::Syntax { src, should_be } => ErrorView::Syntax {
                src: src@,
                should_be: should_be@,
            },
            ProtocolError::IntParse(e) => ErrorView::IntParse(*e),
            ProtocolError::TooManyUniqueStrings => ErrorView::TooManyUniqueStrings,
            ProtocolError::InvalidSize(n) => ErrorView::InvalidSize(*n),
            ProtocolError::AlignIsNotPowerOfTwo(a) => ErrorView::AlignIsNotPowerOfTwo(*a),
            ProtocolError::ForbiddenAlign(a) => ErrorView::ForbiddenAlign(*a),
            ProtocolError::ForbiddenRawAlign(a) => ErrorView::ForbiddenRawAlign(*a),
            ProtocolError::TooManyStructs => ErrorView::TooManyStructs,
            ProtocolError::TooManyEnums => ErrorView::TooManyEnums,
            ProtocolError::TooManyFields => ErrorView::TooManyFields,
            ProtocolError::TooManyVariants => ErrorView::TooManyVariants,
            ProtocolError::InvalidEnumStorageType => ErrorView::InvalidEnumStorageType,
            ProtocolError::StructFieldLimitExceeded(s) => ErrorView::StructFieldLimitExceeded(s@),
            ProtocolError::FreeBytesLimitExceeded(s) => ErrorView::FreeBytesLimitExceeded(s@),
            ProtocolError::TooManyGroups => ErrorView::TooManyGroups,
            ProtocolError::TooManyMessages => ErrorView::TooManyMessages,
        }
    }
}

/// A result seen through the views of its value and of its error.
pub open spec fn rview<T: View>(r: Result<T, ProtocolError>) -> Result<T::V, ErrorView> {
    match r {
        Ok(v) => Ok(v@),
        Err(e) => Err(e@),
    }
}

/// The errors of a list, each seen through its view.
pub open spec fn errors_view(errors: Seq<ProtocolError>) -> Seq<ErrorView> {
    errors.map_values(|e: ProtocolError| e@)
}

/// Appending an error appends its view.
pub proof fn lemma_errors_push(v: Seq<ProtocolError>, e: ProtocolError)
    ensures
        errors_view(v.push(e)) == errors_view(v).push(e@),
{
    assert(errors_view(v.push(e)) =~= errors_view(v).push(e@));
}

impl From<roxmltree::Error> for ProtocolError {
    fn from(e: roxmltree::Error) -> (r: Self)
        ensures
            r == ProtocolError::Xml(e),
    {
        ProtocolError::Xml(e)
    }
}

impl vstd::std_specs::convert::FromSpecImpl<roxmltree::Error> for ProtocolError {
    open spec fn obeys_from_spec() -> bool {
        true
    }

    open spec fn from_spec(e: roxmltree::Error) -> Self {
        ProtocolError::Xml(e)
    }
}

impl From<std::num::ParseIntError> for ProtocolError {
    fn from(e: std::num::ParseIntError) -> (r: Self)
        ensures
            r == ProtocolError::IntParse(e),
    {
        ProtocolError::IntParse(e)
    }
}

impl vstd::std_specs::convert::FromSpecImpl<std::num::ParseIntError> for ProtocolError {
    open spec fn obeys_from_spec() -> bool {
        true
    }

    open spec fn from_spec(e: std::num::ParseIntError) -> Self {
        ProtocolError::IntParse(e)
    }
}

/// Turns a failed step into a fallback value, keeping the error for later.
pub trait ProtocolErrorExt<T> {
    fn or_save_to(self, errors: &mut Vec<ProtocolError>) -> T;
}

} // verus!

use vstd::prelude::*;

verus! {

/// The kind of a decoding or encoding failure. Errors are compared by kind
/// at the API boundary; everything else on an error is diagnostic only.
#[derive(Debug, Clone, Copy, PartialEq, Eq, Hash, Structural)]
pub enum ErrorCode {
    UnexpectedFieldType,
    InvalidASN1Object,
    InvalidASN1IntegerEncoding,
    TruncatedASN1Field,
    UnsupportedFieldLength,
    InvalidPEMDocument,
    InvalidStringRepresentation,
    TooFewOIDComponents,
    ValueOutOfRange,
}

/// A decoding or encoding failure: a kind, a human-readable reason, and the
/// source location that raised it (diagnostics only; not part of the
/// normative behaviour).
#[derive(Debug, Clone, PartialEq, Eq, Hash)]
pub struct ASN1Error {
    code: ErrorCode,
    reason: String,
    file: String,
    line: u32,
}

impl ASN1Error {
    /// The kind of this error, as a spec-level value.
    pub closed spec fn spec_code(&self) -> ErrorCode {
        self.code
    }

    pub fn new(code: ErrorCode, reason: String, file: String, line: u32) -> (r: Self)
        ensures
            r.spec_code() == code,
    {
        ASN1Error { code, reason, file, line }
    }

    pub fn code(&self) -> (r: ErrorCode)
        ensures
            r == self.spec_code(),
    {
        self.code
    }
}

/// Builds an error from a kind and a static reason, leaving the source
/// location fields empty; used by the decoders throughout the crate.
pub(crate) fn err(code: ErrorCode, reason: &str) -> (r: ASN1Error)
    ensures
        r.spec_code() == code,
{
    ASN1Error { code, reason: reason.to_owned(), file: String::new(), line: 0 }
}

impl ASN1Error {
    /// A diagnostic rendering of this error: its kind, reason and source
    /// location. The exact wording is not part of the library's contract.
    pub fn description(&self) -> String {
        let code_name = match self.code {
            ErrorCode::UnexpectedFieldType => "UnexpectedFieldType",
            ErrorCode::InvalidASN1Object => "InvalidASN1Object",
            ErrorCode::InvalidASN1IntegerEncoding => "InvalidASN1IntegerEncoding",
            ErrorCode::TruncatedASN1Field => "TruncatedASN1Field",
            ErrorCode::UnsupportedFieldLength => "UnsupportedFieldLength",
            ErrorCode::InvalidPEMDocument => "InvalidPEMDocument",
            ErrorCode::InvalidStringRepresentation => "InvalidStringRepresentation",
            ErrorCode::TooFewOIDComponents => "TooFewOIDComponents",
            ErrorCode::ValueOutOfRange => "ValueOutOfRange",
        };
        let mut text = String::from_str("ASN1Error.");
        text.append(code_name);
        text.append(": ");
        text.append(self.reason.as_str());
        text.append(" ");
        text.append(self.file.as_str());
        text.append(":");
        let line_text = decimal_string(self.line as u64);
        text.append(line_text.as_str());
        text
    }
}

/// The decimal digits of `n`, as text. Diagnostic only.
pub fn decimal_string(n: u64) -> String {
    let mut digits: Vec<u8> = Vec::new();
    let mut v: u64 = n;
    digits.push(0x30 + (v % 10) as u8);
    v = v / 10;
    while v > 0
        invariant
            digits@.len() >= 1,
        decreases v,
    {
        digits.insert(0, 0x30 + (v % 10) as u8);
        v = v / 10;
    }
    crate::trusted::string_from_utf8_lossy(digits)
}

} // verus!

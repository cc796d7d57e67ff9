use vstd::prelude::*;
use crate::asn1::{ASN1Node, Content};
use crate::asn1_types::identifier::{universal_id, ASN1Identifier};
use crate::ber::{BERImplicitlyTaggable, BERParseable, BERSerializable};
use crate::der::{DERImplicitlyTaggable, DERParseable, DERSerializable, Serializer};
use crate::encoding::encoded_tlv;
use crate::errors::{err, ASN1Error, ErrorCode};
use crate::trusted::{bytes_get, bytes_len, bytes_view};

verus! {

/// Whether `year` is a leap year in the Gregorian calendar.
pub open spec fn spec_is_leap_year(year: u16) -> bool {
    year % 4 == 0 && (year % 100 != 0 || year % 400 == 0)
}

/// The number of days in the given month of the given year.
pub open spec fn spec_days_in_month(year: u16, month: u8) -> u8 {
    if month == 2 {
        if spec_is_leap_year(year) {
            29
        } else {
            28
        }
    } else if month == 4 || month == 6 || month == 9 || month == 11 {
        30
    } else {
        31
    }
}

/// A sound calendar date with a time of day, seconds precision.
pub open spec fn spec_datetime_ok(
    year: u16,
    month: u8,
    day: u8,
    hour: u8,
    minute: u8,
    second: u8,
) -> bool {
    &&& 1 <= month <= 12
    &&& 1 <= day <= spec_days_in_month(year, month)
    &&& hour < 24
    &&& minute < 60
    &&& second < 60
}

/// The ASCII digit octet for `d`.
pub open spec fn spec_digit(d: int) -> u8 {
    (0x30 + d % 10) as u8
}

/// The two ASCII digits of a value below one hundred.
pub open spec fn spec_two_digits(v: int) -> Seq<u8> {
    seq![spec_digit(v / 10), spec_digit(v)]
}

/// A decimal digit octet.
pub open spec fn spec_is_digit(b: u8) -> bool {
    0x30 <= b <= 0x39
}

/// The value of the two decimal digit octets at `j`.
pub open spec fn spec_two_digit_val(c: Seq<u8>, j: int) -> int {
    10 * (c[j] - 0x30) + (c[j + 1] - 0x30)
}

/// An ASN.1 GeneralizedTime, restricted to the UTC-terminated form
/// `YYYYMMDDHHMMSSZ` with seconds precision.
#[derive(Debug, Clone, Copy, PartialEq, Eq, Hash, Structural)]
pub struct GeneralizedTime {
    pub year: u16,
    pub month: u8,
    pub day: u8,
    pub hour: u8,
    pub minute: u8,
    pub second: u8,
}

/// An ASN.1 UTCTime, `YYMMDDHHMMSSZ`: two-digit years 00 through 49 mean
/// 2000 through 2049, and 50 through 99 mean 1950 through 1999.
#[derive(Debug, Clone, Copy, PartialEq, Eq, Hash, Structural)]
pub struct UTCTime {
    pub year: u16,
    pub month: u8,
    pub day: u8,
    pub hour: u8,
    pub minute: u8,
    pub second: u8,
}

impl GeneralizedTime {
    /// A sound GeneralizedTime: a valid date and time with a four-digit
    /// year.
    pub open spec fn wf(&self) -> bool {
        spec_datetime_ok(self.year, self.month, self.day, self.hour, self.minute, self.second)
            && self.year <= 9999
    }

    /// The content octets this value serializes to: `YYYYMMDDHHMMSSZ`.
    pub open spec fn spec_content(&self) -> Seq<u8> {
        seq![
            spec_digit(self.year as int / 1000),
            spec_digit(self.year as int / 100),
            spec_digit(self.year as int / 10),
            spec_digit(self.year as int),
        ] + spec_two_digits(self.month as int) + spec_two_digits(self.day as int)
            + spec_two_digits(self.hour as int) + spec_two_digits(self.minute as int)
            + spec_two_digits(self.second as int) + seq![0x5Au8]
    }

    /// Accepts exactly the sound values.
    pub fn new(year: u16, month: u8, day: u8, hour: u8, minute: u8, second: u8) -> (r: Result<
        Self,
        ASN1Error,
    >)
        ensures
            match r {
                Ok(v) => v == (GeneralizedTime { year, month, day, hour, minute, second })
                    && v.wf(),
                Err(e) => !(GeneralizedTime { year, month, day, hour, minute, second }).wf()
                    && e.spec_code() == ErrorCode::InvalidStringRepresentation,
            },
    {
        if year <= 9999 && datetime_ok(year, month, day, hour, minute, second) {
            Ok(GeneralizedTime { year, month, day, hour, minute, second })
        } else {
            Err(err(ErrorCode::InvalidStringRepresentation, "Invalid date or time"))
        }
    }
}

impl UTCTime {
    /// A sound UTCTime: a valid date and time with a year inside the
    /// two-digit window.
    pub open spec fn wf(&self) -> bool {
        spec_datetime_ok(self.year, self.month, self.day, self.hour, self.minute, self.second)
            && 1950 <= self.year <= 2049
    }

    /// The content octets this value serializes to: `YYMMDDHHMMSSZ`.
    pub open spec fn spec_content(&self) -> Seq<u8> {
        spec_two_digits(self.year as int) + spec_two_digits(self.month as int) + spec_two_digits(
            self.day as int,
        ) + spec_two_digits(self.hour as int) + spec_two_digits(self.minute as int)
            + spec_two_digits(self.second as int) + seq![0x5Au8]
    }

    /// Accepts exactly the sound values.
    pub fn new(year: u16, month: u8, day: u8, hour: u8, minute: u8, second: u8) -> (r: Result<
        Self,
        ASN1Error,
    >)
        ensures
            match r {
                Ok(v) => v == (UTCTime { year, month, day, hour, minute, second }) && v.wf(),
                Err(e) => !(UTCTime { year, month, day, hour, minute, second }).wf()
                    && e.spec_code() == ErrorCode::InvalidStringRepresentation,
            },
    {
        if 1950 <= year && year <= 2049 && datetime_ok(year, month, day, hour, minute, second) {
            Ok(UTCTime { year, month, day, hour, minute, second })
        } else {
            Err(err(ErrorCode::InvalidStringRepresentation, "Invalid date or time"))
        }
    }
}

/// What a `YYYYMMDDHHMMSSZ` content string reads as: the value, exactly
/// when the shape, the digits, and the calendar date and time are sound.
pub open spec fn spec_gt_parse(c: Seq<u8>) -> Option<GeneralizedTime> {
    if c.len() == 15 && (forall|i: int| 0 <= i < 14 ==> spec_is_digit(#[trigger] c[i])) && c[14]
        == 0x5A {
        let v = GeneralizedTime {
            year: (100 * spec_two_digit_val(c, 0) + spec_two_digit_val(c, 2)) as u16,
            month: spec_two_digit_val(c, 4) as u8,
            day: spec_two_digit_val(c, 6) as u8,
            hour: spec_two_digit_val(c, 8) as u8,
            minute: spec_two_digit_val(c, 10) as u8,
            second: spec_two_digit_val(c, 12) as u8,
        };
        if v.wf() {
            Some(v)
        } else {
            None
        }
    } else {
        None
    }
}

/// What a `YYMMDDHHMMSSZ` content string reads as, with the two-digit
/// year read through the fifty-year window.
pub open spec fn spec_utc_parse(c: Seq<u8>) -> Option<UTCTime> {
    if c.len() == 13 && (forall|i: int| 0 <= i < 12 ==> spec_is_digit(#[trigger] c[i])) && c[12]
        == 0x5A {
        let yy = spec_two_digit_val(c, 0);
        let v = UTCTime {
            year: (if yy >= 50 {
                1900 + yy
            } else {
                2000 + yy
            }) as u16,
            month: spec_two_digit_val(c, 2) as u8,
            day: spec_two_digit_val(c, 4) as u8,
            hour: spec_two_digit_val(c, 6) as u8,
            minute: spec_two_digit_val(c, 8) as u8,
            second: spec_two_digit_val(c, 10) as u8,
        };
        if v.wf() {
            Some(v)
        } else {
            None
        }
    } else {
        None
    }
}

fn datetime_ok(year: u16, month: u8, day: u8, hour: u8, minute: u8, second: u8) -> (r: bool)
    ensures
        r == spec_datetime_ok(year, month, day, hour, minute, second),
{
    if month < 1 || month > 12 {
        return false;
    }
    let dim: u8 = if month == 2 {
        if year % 4 == 0 && (year % 100 != 0 || year % 400 == 0) {
            29
        } else {
            28
        }
    } else if month == 4 || month == 6 || month == 9 || month == 11 {
        30
    } else {
        31
    };
    1 <= day && day <= dim && hour < 24 && minute < 60 && second < 60
}

/// Reads the two ASCII digits at `i` as a value below one hundred; `None`
/// when either octet is not a digit.
fn two_digits_at(c: &bytes::Bytes, i: usize) -> (r: Option<u8>)
    requires
        i + 2 <= bytes_view(*c).len(),
        bytes_view(*c).len() <= usize::MAX,
    ensures
        match r {
            Some(v) => v < 100 && bytes_view(*c)[i as int] == spec_digit(v as int / 10)
                && bytes_view(*c)[i as int + 1] == spec_digit(v as int) && spec_is_digit(
                bytes_view(*c)[i as int],
            ) && spec_is_digit(bytes_view(*c)[i as int + 1]) && v as int == spec_two_digit_val(
                bytes_view(*c),
                i as int,
            ),
            None => !(spec_is_digit(bytes_view(*c)[i as int]) && spec_is_digit(
                bytes_view(*c)[i as int + 1],
            )),
        },
{
    let a = bytes_get(c, i);
    let b = bytes_get(c, i + 1);
    if 0x30 <= a && a <= 0x39 && 0x30 <= b && b <= 0x39 {
        let v = (a - 0x30) * 10 + (b - 0x30);
        Some(v)
    } else {
        None
    }
}

/// What decoding a node as a GeneralizedTime against `identifier` yields:
/// a primitive node whose content octets read as a sound
/// `YYYYMMDDHHMMSSZ` value — exactly that value, whose re-encoding is the
/// content itself — and otherwise the stated failure kind.
pub open spec fn spec_generalized_time_from_der(
    node: ASN1Node,
    identifier: ASN1Identifier,
    r: Result<GeneralizedTime, ASN1Error>,
) -> bool {
    match r {
        Ok(v) => node.identifier == identifier && (node.content matches Content::Primitive(b)
            && v.wf() && bytes_view(b) == v.spec_content() && spec_gt_parse(bytes_view(b))
            == Some(v)),
        Err(e) => {
            ||| (node.identifier != identifier && e.spec_code() == ErrorCode::UnexpectedFieldType)
            ||| (node.identifier == identifier && node.spec_is_constructed() && e.spec_code()
                == ErrorCode::UnexpectedFieldType)
            ||| (node.identifier == identifier && (node.content matches Content::Primitive(b)
                && spec_gt_parse(bytes_view(b)) is None && e.spec_code()
                == ErrorCode::InvalidStringRepresentation))
        },
    }
}

/// What decoding a node as a UTCTime against `identifier` yields: a
/// primitive node whose content octets read as a sound `YYMMDDHHMMSSZ`
/// value — exactly that value, with the year through the fifty-year
/// window, whose re-encoding is the content itself — and otherwise the
/// stated failure kind.
pub open spec fn spec_utc_time_from_der(
    node: ASN1Node,
    identifier: ASN1Identifier,
    r: Result<UTCTime, ASN1Error>,
) -> bool {
    match r {
        Ok(v) => node.identifier == identifier && (node.content matches Content::Primitive(b)
            && v.wf() && bytes_view(b) == v.spec_content() && spec_utc_parse(bytes_view(b))
            == Some(v)),
        Err(e) => {
            ||| (node.identifier != identifier && e.spec_code() == ErrorCode::UnexpectedFieldType)
            ||| (node.identifier == identifier && node.spec_is_constructed() && e.spec_code()
                == ErrorCode::UnexpectedFieldType)
            ||| (node.identifier == identifier && (node.content matches Content::Primitive(b)
                && spec_utc_parse(bytes_view(b)) is None && e.spec_code()
                == ErrorCode::InvalidStringRepresentation))
        },
    }
}

impl DERParseable for GeneralizedTime {
    fn from_der_node(node: ASN1Node) -> (r: Result<Self, ASN1Error>)
        ensures
            spec_generalized_time_from_der(node, universal_id(0x18), r),
    {
        Self::from_der_node_with_identifier(node, GeneralizedTime::default_identifier())
    }
}

impl DERSerializable for GeneralizedTime {
    fn serialize(&self, serializer: &mut Serializer) -> (r: Result<(), ASN1Error>)
        ensures
            r matches Ok(_),
            final(serializer).spec_buffer() == old(serializer).spec_buffer() + encoded_tlv(
                universal_id(0x18),
                false,
                self.spec_content(),
            ),
    {
        let mut content: Vec<u8> = Vec::new();
        content.push(0x30 + ((self.year / 1000) % 10) as u8);
        content.push(0x30 + ((self.year / 100) % 10) as u8);
        content.push(0x30 + ((self.year / 10) % 10) as u8);
        content.push(0x30 + (self.year % 10) as u8);
        push_two_digits(&mut content, self.month);
        push_two_digits(&mut content, self.day);
        push_two_digits(&mut content, self.hour);
        push_two_digits(&mut content, self.minute);
        push_two_digits(&mut content, self.second);
        content.push(0x5A);
        proof {
            assert(content@ =~= self.spec_content());
        }
        serializer.append_node(GeneralizedTime::default_identifier(), false, content.as_slice())
    }
}

fn push_two_digits(v: &mut Vec<u8>, value: u8)
    ensures
        final(v)@ == old(v)@ + spec_two_digits(value as int),
{
    v.push(0x30 + (value / 10) % 10);
    v.push(0x30 + value % 10);
    proof {
        assert(v@ =~= old(v)@ + spec_two_digits(value as int));
    }
}

impl DERImplicitlyTaggable for GeneralizedTime {
    open spec fn spec_default_identifier() -> ASN1Identifier {
        universal_id(0x18)
    }

    fn default_identifier() -> (r: ASN1Identifier)
        ensures
            r == universal_id(0x18),
    {
        proof {
            assert(<GeneralizedTime as DERImplicitlyTaggable>::spec_default_identifier()
                == universal_id(0x18));
        }
        ASN1Identifier::generalized_time()
    }

    fn from_der_node_with_identifier(node: ASN1Node, identifier: ASN1Identifier) -> (r: Result<
        Self,
        ASN1Error,
    >)
        ensures
            spec_generalized_time_from_der(node, identifier, r),
    {
        if node.identifier != identifier {
            return Err(err(ErrorCode::UnexpectedFieldType, "Unexpected field type"));
        }
        match node.content {
            Content::Primitive(c) => {
                if bytes_len(&c) != 15 {
                    return Err(
                        err(ErrorCode::InvalidStringRepresentation, "Invalid GeneralizedTime format"),
                    );
                }
                if bytes_get(&c, 14) != 0x5A {
                    return Err(
                        err(
                            ErrorCode::InvalidStringRepresentation,
                            "GeneralizedTime must end with Z in DER",
                        ),
                    );
                }
                let hi = match two_digits_at(&c, 0) {
                    Some(v) => v,
                    None => {
                        return Err(
                            err(
                                ErrorCode::InvalidStringRepresentation,
                                "Invalid GeneralizedTime format",
                            ),
                        );
                    },
                };
                let lo = match two_digits_at(&c, 2) {
                    Some(v) => v,
                    None => {
                        return Err(
                            err(
                                ErrorCode::InvalidStringRepresentation,
                                "Invalid GeneralizedTime format",
                            ),
                        );
                    },
                };
                let year: u16 = (hi as u16) * 100 + (lo as u16);
                let rest = match read_time_fields(&c, 4, year) {
                    Some(t) => t,
                    None => {
                        return Err(
                            err(
                                ErrorCode::InvalidStringRepresentation,
                                "Invalid GeneralizedTime format",
                            ),
                        );
                    },
                };
                let v = GeneralizedTime {
                    year,
                    month: rest.0,
                    day: rest.1,
                    hour: rest.2,
                    minute: rest.3,
                    second: rest.4,
                };
                proof {
                    lemma_year_digits(year, hi, lo);
                    assert(bytes_view(c) =~= v.spec_content());
                }
                Ok(v)
            },
            Content::Constructed(_) => Err(
                err(ErrorCode::UnexpectedFieldType, "GeneralizedTime must be primitive"),
            ),
        }
    }
}

/// Reads `MMDDHHMMSS` starting at `i`, validating the ranges against the
/// given year.
fn read_time_fields(c: &bytes::Bytes, i: usize, year: u16) -> (r: Option<(u8, u8, u8, u8, u8)>)
    requires
        i + 10 <= bytes_view(*c).len(),
        bytes_view(*c).len() <= usize::MAX,
    ensures
        match r {
            Some(t) => {
                &&& spec_datetime_ok(year, t.0, t.1, t.2, t.3, t.4)
                &&& bytes_view(*c)[i as int] == spec_digit(t.0 as int / 10)
                &&& bytes_view(*c)[i as int + 1] == spec_digit(t.0 as int)
                &&& bytes_view(*c)[i as int + 2] == spec_digit(t.1 as int / 10)
                &&& bytes_view(*c)[i as int + 3] == spec_digit(t.1 as int)
                &&& bytes_view(*c)[i as int + 4] == spec_digit(t.2 as int / 10)
                &&& bytes_view(*c)[i as int + 5] == spec_digit(t.2 as int)
                &&& bytes_view(*c)[i as int + 6] == spec_digit(t.3 as int / 10)
                &&& bytes_view(*c)[i as int + 7] == spec_digit(t.3 as int)
                &&& bytes_view(*c)[i as int + 8] == spec_digit(t.4 as int / 10)
                &&& bytes_view(*c)[i as int + 9] == spec_digit(t.4 as int)
                &&& (forall|j: int|
                    i <= j < i + 10 ==> spec_is_digit(#[trigger] bytes_view(*c)[j]))
                &&& t.0 as int == spec_two_digit_val(bytes_view(*c), i as int)
                &&& t.1 as int == spec_two_digit_val(bytes_view(*c), i as int + 2)
                &&& t.2 as int == spec_two_digit_val(bytes_view(*c), i as int + 4)
                &&& t.3 as int == spec_two_digit_val(bytes_view(*c), i as int + 6)
                &&& t.4 as int == spec_two_digit_val(bytes_view(*c), i as int + 8)
            },
            None => !((forall|j: int|
                i <= j < i + 10 ==> spec_is_digit(#[trigger] bytes_view(*c)[j]))
                && spec_datetime_ok(
                year,
                spec_two_digit_val(bytes_view(*c), i as int) as u8,
                spec_two_digit_val(bytes_view(*c), i as int + 2) as u8,
                spec_two_digit_val(bytes_view(*c), i as int + 4) as u8,
                spec_two_digit_val(bytes_view(*c), i as int + 6) as u8,
                spec_two_digit_val(bytes_view(*c), i as int + 8) as u8,
            )),
        },
{
    let month = match two_digits_at(c, i) {
        Some(v) => v,
        None => {
            return None;
        },
    };
    let day = match two_digits_at(c, i + 2) {
        Some(v) => v,
        None => {
            return None;
        },
    };
    let hour = match two_digits_at(c, i + 4) {
        Some(v) => v,
        None => {
            return None;
        },
    };
    let minute = match two_digits_at(c, i + 6) {
        Some(v) => v,
        None => {
            return None;
        },
    };
    let second = match two_digits_at(c, i + 8) {
        Some(v) => v,
        None => {
            return None;
        },
    };
    proof {
        assert forall|j: int| i <= j < i + 10 implies spec_is_digit(
            #[trigger] bytes_view(*c)[j],
        ) by {
            if j < i + 2 {
            } else if j < i + 4 {
            } else if j < i + 6 {
            } else if j < i + 8 {
            }
        }
    }
    if !datetime_ok(year, month, day, hour, minute, second) {
        return None;
    }
    Some((month, day, hour, minute, second))
}

impl BERParseable for GeneralizedTime {
    fn from_ber_node(node: ASN1Node) -> (r: Result<Self, ASN1Error>)
        ensures
            spec_generalized_time_from_der(node, universal_id(0x18), r),
    {
        Self::from_der_node(node)
    }
}

impl BERSerializable for GeneralizedTime {

}

impl BERImplicitlyTaggable for GeneralizedTime {
    fn from_ber_node_with_identifier(node: ASN1Node, identifier: ASN1Identifier) -> (r: Result<
        Self,
        ASN1Error,
    >)
        ensures
            spec_generalized_time_from_der(node, identifier, r),
    {
        Self::from_der_node_with_identifier(node, identifier)
    }
}

impl DERParseable for UTCTime {
    fn from_der_node(node: ASN1Node) -> (r: Result<Self, ASN1Error>)
        ensures
            spec_utc_time_from_der(node, universal_id(0x17), r),
    {
        Self::from_der_node_with_identifier(node, UTCTime::default_identifier())
    }
}

impl DERSerializable for UTCTime {
    fn serialize(&self, serializer: &mut Serializer) -> (r: Result<(), ASN1Error>)
        ensures
            r matches Ok(_),
            final(serializer).spec_buffer() == old(serializer).spec_buffer() + encoded_tlv(
                universal_id(0x17),
                false,
                self.spec_content(),
            ),
    {
        let mut content: Vec<u8> = Vec::new();
        content.push(0x30 + ((self.year / 10) % 10) as u8);
        content.push(0x30 + (self.year % 10) as u8);
        push_two_digits(&mut content, self.month);
        push_two_digits(&mut content, self.day);
        push_two_digits(&mut content, self.hour);
        push_two_digits(&mut content, self.minute);
        push_two_digits(&mut content, self.second);
        content.push(0x5A);
        proof {
            assert(content@ =~= self.spec_content());
        }
        serializer.append_node(UTCTime::default_identifier(), false, content.as_slice())
    }
}

impl DERImplicitlyTaggable for UTCTime {
    open spec fn spec_default_identifier() -> ASN1Identifier {
        universal_id(0x17)
    }

    fn default_identifier() -> (r: ASN1Identifier)
        ensures
            r == universal_id(0x17),
    {
        proof {
            assert(<UTCTime as DERImplicitlyTaggable>::spec_default_identifier()
                == universal_id(0x17));
        }
        ASN1Identifier::utc_time()
    }

    fn from_der_node_with_identifier(node: ASN1Node, identifier: ASN1Identifier) -> (r: Result<
        Self,
        ASN1Error,
    >)
        ensures
            spec_utc_time_from_der(node, identifier, r),
    {
        if node.identifier != identifier {
            return Err(err(ErrorCode::UnexpectedFieldType, "Unexpected field type"));
        }
        match node.content {
            Content::Primitive(c) => {
                if bytes_len(&c) != 13 {
                    return Err(
                        err(ErrorCode::InvalidStringRepresentation, "Invalid UTCTime format"),
                    );
                }
                if bytes_get(&c, 12) != 0x5A {
                    return Err(
                        err(
                            ErrorCode::InvalidStringRepresentation,
                            "UTCTime must end with Z in DER",
                        ),
                    );
                }
                let yy = match two_digits_at(&c, 0) {
                    Some(v) => v,
                    None => {
                        return Err(
                            err(ErrorCode::InvalidStringRepresentation, "Invalid UTCTime format"),
                        );
                    },
                };
                let year: u16 = if yy >= 50 {
                    1900 + yy as u16
                } else {
                    2000 + yy as u16
                };
                let rest = match read_time_fields(&c, 2, year) {
                    Some(t) => t,
                    None => {
                        return Err(
                            err(ErrorCode::InvalidStringRepresentation, "Invalid UTCTime format"),
                        );
                    },
                };
                let v = UTCTime {
                    year,
                    month: rest.0,
                    day: rest.1,
                    hour: rest.2,
                    minute: rest.3,
                    second: rest.4,
                };
                proof {
                    lemma_window_digits(year, yy);
                    assert(bytes_view(c) =~= v.spec_content());
                }
                Ok(v)
            },
            Content::Constructed(_) => Err(
                err(ErrorCode::UnexpectedFieldType, "UTCTime must be primitive"),
            ),
        }
    }
}

impl BERParseable for UTCTime {
    fn from_ber_node(node: ASN1Node) -> (r: Result<Self, ASN1Error>)
        ensures
            spec_utc_time_from_der(node, universal_id(0x17), r),
    {
        Self::from_der_node(node)
    }
}

impl BERSerializable for UTCTime {

}

impl BERImplicitlyTaggable for UTCTime {
    fn from_ber_node_with_identifier(node: ASN1Node, identifier: ASN1Identifier) -> (r: Result<
        Self,
        ASN1Error,
    >)
        ensures
            spec_utc_time_from_der(node, identifier, r),
    {
        Self::from_der_node_with_identifier(node, identifier)
    }
}


/// The four year digits of `year == hi * 100 + lo` come from the two
/// two-digit groups.
proof fn lemma_year_digits(year: u16, hi: u8, lo: u8)
    requires
        hi < 100,
        lo < 100,
        year == hi as u16 * 100 + lo as u16,
    ensures
        spec_digit(year as int / 1000) == spec_digit(hi as int / 10),
        spec_digit(year as int / 100) == spec_digit(hi as int),
        spec_digit(year as int / 10) == spec_digit(lo as int / 10),
        spec_digit(year as int) == spec_digit(lo as int),
{
    let y = year as int;
    let h = hi as int;
    let l = lo as int;
    assert(y / 1000 == h / 10 && y / 100 % 10 == h % 10 && y / 10 % 10 == l / 10 % 10 && y % 10
        == l % 10) by (nonlinear_arith)
        requires
            y == h * 100 + l,
            0 <= l < 100,
            0 <= h < 100,
    ;
}

/// The two year digits of a windowed year come from its two-digit form.
proof fn lemma_window_digits(year: u16, yy: u8)
    requires
        yy < 100,
        year == 1900 + yy as u16 || year == 2000 + yy as u16,
    ensures
        spec_digit(year as int / 10) == spec_digit(yy as int / 10),
        spec_digit(year as int) == spec_digit(yy as int),
{
    let y = year as int;
    let v = yy as int;
    assert(y / 10 % 10 == v / 10 % 10 && y % 10 == v % 10) by (nonlinear_arith)
        requires
            0 <= v < 100,
            y == 1900 + v || y == 2000 + v,
    ;
}

} // verus!

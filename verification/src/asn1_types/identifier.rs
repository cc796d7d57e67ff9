use vstd::prelude::*;

verus! {

/// The class of an ASN.1 tag: the top two bits of the leading identifier octet.
#[derive(Debug, Clone, Copy, PartialEq, Eq, Hash, Structural)]
pub enum TagClass {
    Universal,
    Application,
    ContextSpecific,
    Private,
}

/// The tag class encoded in the top two bits of an identifier octet.
pub open spec fn spec_tag_class(top_byte: u8) -> TagClass {
    if top_byte >> 6 == 0 {
        TagClass::Universal
    } else if top_byte >> 6 == 1 {
        TagClass::Application
    } else if top_byte >> 6 == 2 {
        TagClass::ContextSpecific
    } else {
        TagClass::Private
    }
}

/// The bits a tag class contributes to the leading identifier octet.
pub open spec fn spec_class_flags(class: TagClass) -> u8 {
    match class {
        TagClass::Universal => 0x00,
        TagClass::Application => 0x40,
        TagClass::ContextSpecific => 0x80,
        TagClass::Private => 0xC0,
    }
}

impl TagClass {
    pub fn from_top_byte(top_byte: u8) -> (r: Self)
        ensures
            r == spec_tag_class(top_byte),
    {
        let bits = top_byte >> 6;
        assert(top_byte >> 6 <= 3) by (bit_vector);
        match bits {
            0 => TagClass::Universal,
            1 => TagClass::Application,
            2 => TagClass::ContextSpecific,
            _ => TagClass::Private,
        }
    }

    pub fn top_byte_flags(&self) -> (r: u8)
        ensures
            r == spec_class_flags(*self),
    {
        match self {
            TagClass::Universal => 0x00,
            TagClass::Application => 0x40,
            TagClass::ContextSpecific => 0x80,
            TagClass::Private => 0xC0,
        }
    }
}

/// An ASN.1 identifier: a tag number together with its tag class. The
/// constructed/primitive bit is not part of the identifier; it lives on the
/// node that carries it.
#[derive(Debug, Clone, Copy, PartialEq, Eq, Hash, Structural)]
pub struct ASN1Identifier {
    pub tag_number: u64,
    pub tag_class: TagClass,
}

/// The universal-class identifier with the given tag number.
pub open spec fn universal_id(tag_number: u64) -> ASN1Identifier {
    ASN1Identifier { tag_number, tag_class: TagClass::Universal }
}

impl ASN1Identifier {
    pub fn new(tag_number: u64, tag_class: TagClass) -> (r: Self)
        ensures
            r == (ASN1Identifier { tag_number, tag_class }),
    {
        ASN1Identifier { tag_number, tag_class }
    }

    /// Reads an identifier out of a single short-form identifier octet.
    /// Short form cannot carry the long-form marker in its low five bits.
    pub fn from_short_identifier(short_identifier: u8) -> (r: Self)
        requires
            short_identifier & 0x1F != 0x1F,
        ensures
            r.tag_number == (short_identifier & 0x1F) as u64,
            r.tag_class == spec_tag_class(short_identifier),
    {
        ASN1Identifier {
            tag_class: TagClass::from_top_byte(short_identifier),
            tag_number: (short_identifier & 0x1F) as u64,
        }
    }

    /// The single identifier octet, when the tag number is small enough for
    /// short form; `None` when long form is mandatory.
    pub fn short_form(&self) -> (r: Option<u8>)
        ensures
            match r {
                Some(b) => self.tag_number < 0x1F && b == (self.tag_number as u8
                    | spec_class_flags(self.tag_class)),
                None => self.tag_number >= 0x1F,
            },
    {
        if self.tag_number < 0x1f {
            let base_number: u8 = self.tag_number as u8;
            Some(base_number | self.tag_class.top_byte_flags())
        } else {
            None
        }
    }

    pub fn object_identifier() -> (r: ASN1Identifier)
        ensures
            r == universal_id(0x6),
    {
        ASN1Identifier { tag_number: 0x6, tag_class: TagClass::Universal }
    }

    pub fn bit_string() -> (r: ASN1Identifier)
        ensures
            r == universal_id(0x3),
    {
        ASN1Identifier { tag_number: 0x3, tag_class: TagClass::Universal }
    }

    pub fn octet_string() -> (r: ASN1Identifier)
        ensures
            r == universal_id(0x4),
    {
        ASN1Identifier { tag_number: 0x4, tag_class: TagClass::Universal }
    }

    pub fn integer() -> (r: ASN1Identifier)
        ensures
            r == universal_id(0x2),
    {
        ASN1Identifier { tag_number: 0x2, tag_class: TagClass::Universal }
    }

    pub fn real_type() -> (r: ASN1Identifier)
        ensures
            r == universal_id(0x9),
    {
        ASN1Identifier { tag_number: 0x9, tag_class: TagClass::Universal }
    }

    pub fn sequence() -> (r: ASN1Identifier)
        ensures
            r == universal_id(0x10),
    {
        ASN1Identifier { tag_number: 0x10, tag_class: TagClass::Universal }
    }

    pub fn set_type() -> (r: ASN1Identifier)
        ensures
            r == universal_id(0x11),
    {
        ASN1Identifier { tag_number: 0x11, tag_class: TagClass::Universal }
    }

    pub fn null() -> (r: ASN1Identifier)
        ensures
            r == universal_id(0x5),
    {
        ASN1Identifier { tag_number: 0x5, tag_class: TagClass::Universal }
    }

    pub fn boolean() -> (r: ASN1Identifier)
        ensures
            r == universal_id(0x1),
    {
        ASN1Identifier { tag_number: 0x1, tag_class: TagClass::Universal }
    }

    pub fn enumerated() -> (r: ASN1Identifier)
        ensures
            r == universal_id(0xa),
    {
        ASN1Identifier { tag_number: 0xa, tag_class: TagClass::Universal }
    }

    pub fn utf8_string() -> (r: ASN1Identifier)
        ensures
            r == universal_id(0xc),
    {
        ASN1Identifier { tag_number: 0xc, tag_class: TagClass::Universal }
    }

    pub fn numeric_string() -> (r: ASN1Identifier)
        ensures
            r == universal_id(0x12),
    {
        ASN1Identifier { tag_number: 0x12, tag_class: TagClass::Universal }
    }

    pub fn printable_string() -> (r: ASN1Identifier)
        ensures
            r == universal_id(0x13),
    {
        ASN1Identifier { tag_number: 0x13, tag_class: TagClass::Universal }
    }

    pub fn teletex_string() -> (r: ASN1Identifier)
        ensures
            r == universal_id(0x14),
    {
        ASN1Identifier { tag_number: 0x14, tag_class: TagClass::Universal }
    }

    pub fn videotex_string() -> (r: ASN1Identifier)
        ensures
            r == universal_id(0x15),
    {
        ASN1Identifier { tag_number: 0x15, tag_class: TagClass::Universal }
    }

    pub fn ia5_string() -> (r: ASN1Identifier)
        ensures
            r == universal_id(0x16),
    {
        ASN1Identifier { tag_number: 0x16, tag_class: TagClass::Universal }
    }

    pub fn graphic_string() -> (r: ASN1Identifier)
        ensures
            r == universal_id(0x19),
    {
        ASN1Identifier { tag_number: 0x19, tag_class: TagClass::Universal }
    }

    pub fn visible_string() -> (r: ASN1Identifier)
        ensures
            r == universal_id(0x1a),
    {
        ASN1Identifier { tag_number: 0x1a, tag_class: TagClass::Universal }
    }

    pub fn general_string() -> (r: ASN1Identifier)
        ensures
            r == universal_id(0x1b),
    {
        ASN1Identifier { tag_number: 0x1b, tag_class: TagClass::Universal }
    }

    pub fn universal_string() -> (r: ASN1Identifier)
        ensures
            r == universal_id(0x1c),
    {
        ASN1Identifier { tag_number: 0x1c, tag_class: TagClass::Universal }
    }

    pub fn bmp_string() -> (r: ASN1Identifier)
        ensures
            r == universal_id(0x1e),
    {
        ASN1Identifier { tag_number: 0x1e, tag_class: TagClass::Universal }
    }

    pub fn generalized_time() -> (r: ASN1Identifier)
        ensures
            r == universal_id(0x18),
    {
        ASN1Identifier { tag_number: 0x18, tag_class: TagClass::Universal }
    }

    pub fn utc_time() -> (r: ASN1Identifier)
        ensures
            r == universal_id(0x17),
    {
        ASN1Identifier { tag_number: 0x17, tag_class: TagClass::Universal }
    }
}

impl ASN1Identifier {
    /// A diagnostic rendering of this identifier: its tag number, tag
    /// class, and its short-form octet when one exists. The exact wording
    /// is not part of the library's contract.
    pub fn description(&self) -> String {
        let class_str = match self.tag_class {
            TagClass::Universal => "Universal",
            TagClass::Application => "Application",
            TagClass::ContextSpecific => "ContextSpecific",
            TagClass::Private => "Private",
        };
        let mut text = String::from_str("ASN1Identifier(tagNumber: ");
        let num = crate::errors::decimal_string(self.tag_number);
        text.append(num.as_str());
        text.append(", tagClass: ");
        text.append(class_str);
        match self.short_form() {
            Some(short) => {
                text.append(", shortForm: 0x");
                let hex = hex_octet_string(short);
                text.append(hex.as_str());
                text.append(")");
            },
            None => {
                text.append(", longForm)");
            },
        }
        text
    }
}

/// The two upper-case hexadecimal digits of an octet, as text.
/// Diagnostic only.
pub fn hex_octet_string(b: u8) -> String {
    let mut digits: Vec<u8> = Vec::new();
    digits.push(hex_digit(b / 16));
    digits.push(hex_digit(b % 16));
    crate::trusted::string_from_utf8_lossy(digits)
}

fn hex_digit(d: u8) -> u8
    requires
        d < 16,
{
    if d < 10 {
        0x30 + d
    } else {
        0x37 + d
    }
}

} // verus!

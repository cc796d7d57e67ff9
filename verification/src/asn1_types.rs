pub mod bit_string;
pub mod boolean;
pub mod identifier;
pub mod integer;
pub mod null;
pub mod object_identifier;
pub mod octet_string;
pub mod real_type;
pub mod strings;
pub mod time;

pub use bit_string::ASN1BitString;
pub use boolean::ASN1Boolean;
pub use identifier::{ASN1Identifier, TagClass};
pub use integer::ASN1Integer;
pub use null::ASN1Null;
pub use object_identifier::ASN1ObjectIdentifier;
pub use octet_string::ASN1OctetString;
pub use real_type::ASN1Real;
pub use strings::{ASN1IA5String, ASN1NumericString, ASN1PrintableString, ASN1UTF8String};
pub use time::{GeneralizedTime, UTCTime};

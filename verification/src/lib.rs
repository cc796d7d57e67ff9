pub mod asn1;
pub mod asn1_types;
pub mod ber;
pub mod der;
pub mod encoding;
pub mod errors;
pub mod trusted;

use rust_asn1::asn1_types::{ASN1Identifier, TagClass};

#[test]
fn test_tag_class_from_top_byte() {
    assert_eq!(TagClass::from_top_byte(0x00), TagClass::Universal);
    assert_eq!(TagClass::from_top_byte(0x40), TagClass::Application);
    assert_eq!(TagClass::from_top_byte(0x80), TagClass::ContextSpecific);
    assert_eq!(TagClass::from_top_byte(0xC0), TagClass::Private);
}

#[test]
fn test_tag_class_top_byte_flags() {
    assert_eq!(TagClass::Universal.top_byte_flags(), 0x00);
    assert_eq!(TagClass::Application.top_byte_flags(), 0x40);
    assert_eq!(TagClass::ContextSpecific.top_byte_flags(), 0x80);
    assert_eq!(TagClass::Private.top_byte_flags(), 0xC0);
}

#[test]
fn test_identifier_display_includes_fields() {
    let id = ASN1Identifier::new(42, TagClass::ContextSpecific);
    let text = id.description();
    assert!(
        text.contains("tagNumber: 42"),
        "display text missing tag number: {}",
        text
    );
    assert!(
        text.contains("ContextSpecific"),
        "display text missing tag class: {}",
        text
    );
}

#[test]
fn test_identifier_long_form_description() {
    let id = ASN1Identifier::new(0x1F, TagClass::Universal);
    let text = id.description();
    assert!(text.contains("tagNumber: 31"), "{}", text);
    assert!(text.contains("longForm"), "{}", text);

    let short = ASN1Identifier::new(4, TagClass::Universal);
    let text = short.description();
    assert!(text.contains("shortForm: 0x04"), "{}", text);
}

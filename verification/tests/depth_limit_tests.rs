use rust_asn1::ber;
use rust_asn1::errors::ErrorCode;

#[test]
fn test_recursion_limit() {
    let depth = 60;
    let mut data = Vec::new();
    // Open sequences with indefinite length, then close each.
    for _ in 0..depth {
        data.push(0x30);
        data.push(0x80);
    }
    for _ in 0..depth {
        data.push(0x00);
        data.push(0x00);
    }

    let result = ber::parse(&data);

    assert!(result.is_err(), "Parser should reject deep nesting");
    let err = result.unwrap_err();
    assert_eq!(err.code(), ErrorCode::InvalidASN1Object);
    assert!(err.description().contains("Excessive stack depth"));
}

use rust_asn1::ber;
use rust_asn1::errors::ErrorCode;

#[test]
fn test_node_limit_exceeded() {
    // A flat indefinite SEQUENCE with more nodes than the cap admits.
    let count = 100_001;
    let mut data = Vec::with_capacity(count * 2 + 10);

    data.push(0x30);
    data.push(0x80);

    for _ in 0..count {
        data.push(0x05);
        data.push(0x00);
    }

    data.push(0x00);
    data.push(0x00);

    let result = ber::parse(&data);

    assert!(result.is_err(), "Parser should reject excessive node count");
    let err = result.unwrap_err();
    assert_eq!(err.code(), ErrorCode::InvalidASN1Object);
    assert!(err.description().contains("Excessive number of ASN.1 nodes"));
}

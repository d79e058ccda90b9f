use candy_machine::metadata::{
    check_creators_shares, check_name, check_seller_fee_basis_points, check_symbol, check_url,
    validate_metadata_creators, Creator, Metadata, Property, ValidateParserError,
};

fn creator(addr: &str, share: u8) -> Creator {
    Creator { address: addr.to_string(), share }
}

fn sample() -> Metadata {
    Metadata {
        name: "Item #1".to_string(),
        symbol: Some("SYM".to_string()),
        description: "d".to_string(),
        seller_fee_basis_points: Some(500),
        image: "https://img/1.png".to_string(),
        animation_url: None,
        external_url: Some("https://site".to_string()),
        attributes: vec![],
        properties: Property {
            files: vec![],
            creators: Some(vec![creator("A1", 60), creator("B2", 40)]),
        },
    }
}

#[test]
fn valid_metadata_passes() {
    let cfg = vec![creator("A1", 60), creator("B2", 40)];
    assert_eq!(sample().validate(&cfg), Ok(()));
}

#[test]
fn each_rule_reports_its_error() {
    let cfg = vec![creator("A1", 60), creator("B2", 40)];
    let mut m = sample();
    m.name = "x".repeat(33);
    assert_eq!(m.validate(&cfg), Err(ValidateParserError::NameTooLong));
    let mut m = sample();
    m.image = "x".repeat(201);
    assert_eq!(m.validate(&cfg), Err(ValidateParserError::UrlTooLong));
    let mut m = sample();
    m.seller_fee_basis_points = Some(10001);
    assert_eq!(m.validate(&cfg), Err(ValidateParserError::InvalidSellerFeeBasisPoints(10001)));
    let mut m = sample();
    m.symbol = Some("ABCDEFGHIJK".to_string());
    assert_eq!(m.validate(&cfg), Err(ValidateParserError::SymbolTooLong));
    let mut m = sample();
    m.properties.creators = None;
    assert_eq!(m.validate(&cfg), Err(ValidateParserError::MissingCreators));
    let mut m = sample();
    m.properties.creators = Some(vec![creator("A1", 60), creator("B2", 50)]);
    assert_eq!(m.validate(&cfg), Err(ValidateParserError::InvalidCreatorShare));
    let mut m = sample();
    m.properties.creators = Some(vec![creator("A1", 40), creator("B2", 60)]);
    assert_eq!(m.validate(&cfg), Err(ValidateParserError::MismatchedCreators));
    let mut m = sample();
    m.animation_url = Some("y".repeat(201));
    assert_eq!(m.validate(&cfg), Err(ValidateParserError::UrlTooLong));
}

#[test]
fn limits_are_inclusive() {
    assert_eq!(check_name(&"n".repeat(32)), Ok(()));
    assert_eq!(check_symbol(&"s".repeat(10)), Ok(()));
    assert_eq!(check_url(&"u".repeat(200)), Ok(()));
    assert_eq!(check_seller_fee_basis_points(10000), Ok(()));
    // byte length, not characters
    assert_eq!(check_name(&"é".repeat(17)), Err(ValidateParserError::NameTooLong));
}

#[test]
fn shares_must_sum_to_one_hundred() {
    assert_eq!(check_creators_shares(&vec![creator("a", 100)]), Ok(()));
    assert_eq!(check_creators_shares(&vec![]), Err(ValidateParserError::InvalidCreatorShare));
    assert_eq!(
        check_creators_shares(&vec![creator("a", 255), creator("b", 255)]),
        Err(ValidateParserError::InvalidCreatorShare)
    );
    assert_eq!(
        validate_metadata_creators(&vec![creator("a", 100)], &vec![creator("b", 100)]),
        Err(ValidateParserError::MismatchedCreators)
    );
    assert_eq!(
        validate_metadata_creators(&vec![creator("a", 100)], &vec![]),
        Err(ValidateParserError::MismatchedCreators)
    );
}

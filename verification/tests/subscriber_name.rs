use newsauth::subscriber::SubscriberName;

#[test]
fn a_256_name_is_valid() {
    let name = "e".repeat(256);
    assert!(SubscriberName::parse(name).is_ok());
}

#[test]
fn a_512_name_is_rejected() {
    let name = "a".repeat(512);
    assert!(SubscriberName::parse(name).is_err());
}

#[test]
fn whitespace_name_rejected() {
    let name = " ".to_string();
    assert!(SubscriberName::parse(name).is_err());
}

#[test]
fn empty_name_rejected() {
    let name = "".to_string();
    assert!(SubscriberName::parse(name).is_err());
}

#[test]
fn bad_chars_rejected() {
    for name in &['/', '(', ')', '"', '<', '>', '\\', '{', '}'] {
        let name = name.to_string();
        assert!(SubscriberName::parse(name).is_err());
    }
}

#[test]
fn a_valid_name_passes() {
    let name = "Ursula Le Guin".to_string();
    assert!(SubscriberName::parse(name).is_ok());
}

#[test]
fn parse_keeps_the_name() {
    let name = SubscriberName::parse("Ursula Le Guin".to_string()).unwrap();
    assert_eq!(name.as_str(), "Ursula Le Guin");
}

#[test]
fn parse_error_names_the_input() {
    let err = match SubscriberName::parse("<bad>".to_string()) {
        Err(e) => e,
        Ok(_) => panic!("a name with angle brackets must be rejected"),
    };
    assert_eq!(err, "<bad> is not a valid SubscriberName");
}

#[test]
fn is_valid_name_agrees() {
    assert!(newsauth::subscriber::is_valid_name("Ursula Le Guin"));
    assert!(!newsauth::subscriber::is_valid_name("   "));
    assert!(!newsauth::subscriber::is_valid_name("a{b"));
}

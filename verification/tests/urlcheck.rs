use moq_core::urlcheck::moq_url;

#[test]
fn https_and_moqt_schemes_accepted() {
    let u = moq_url("https://relay-a.example/path").expect("https accepted");
    assert_eq!(u.scheme(), "https");
    assert_eq!(u.host_str(), Some("relay-a.example"));
    let u = moq_url("moqt://relay-b.example:4443").expect("moqt accepted");
    assert_eq!(u.scheme(), "moqt");
}

#[test]
fn other_schemes_rejected() {
    let e = moq_url("http://relay.example").unwrap_err();
    assert!(e.contains("https"));
    assert!(moq_url("ftp://relay.example").is_err());
}

#[test]
fn unparsable_input_rejected() {
    assert!(moq_url("not a url at all").is_err());
    assert!(moq_url("").is_err());
}

use nago_rustls::error::codes;

#[test]
fn the_codes_are_fixed_numbers() {
    assert_eq!(codes::CONNECTION_RESET, 54);
    assert_eq!(codes::IO, 5);
    assert_eq!(codes::PROTOCOL, 100);
    assert_eq!(codes::BROKEN_PIPE, 32);
}

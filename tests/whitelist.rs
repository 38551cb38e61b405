use sybil::address::{from_str, AddressError};
use sybil::whitelist::{
    CallerError, Whitelist, WhitelistError, WhitelistRequestsError, _add_to_whitelist, _get_whitelist,
    _is_whitelisted, _remove_from_whitelist,
};

#[test]
fn checksum_address_of_known_vector() {
    assert_eq!(
        from_str("5aaeb6053f3e94c9b9a09f33669435e7ef1beaed").unwrap(),
        "0x5aAeb6053F3E94C9b9A09f33669435E7Ef1BeAed"
    );
    assert_eq!(
        from_str("0xfb6916095ca1df60bb79ce92ce3ea74c37c5d359").unwrap(),
        "0xfB6916095ca1df60bB79Ce92cE3Ea74c37c5d359"
    );
    assert_eq!(from_str("invalid-test-address"), Err(AddressError::InvalidHex));
}

#[test]
fn whitelist_requests_by_controller() {
    let mut w = Whitelist::new();
    let addr = "0x654DFF41D51c230FA400205A633101C5C1f1969C";
    _add_to_whitelist(&mut w, addr, true).unwrap();
    assert_eq!(_is_whitelisted(&w, &addr.to_lowercase()), Ok(true));
    assert_eq!(
        _add_to_whitelist(&mut w, addr, true),
        Err(WhitelistRequestsError::Whitelist(WhitelistError::AddressAlreadyWhitelisted))
    );
    assert_eq!(_get_whitelist(&w, true).unwrap().len(), 1);
    _remove_from_whitelist(&mut w, addr, true).unwrap();
    assert_eq!(_is_whitelisted(&w, addr), Ok(false));
    assert_eq!(
        _remove_from_whitelist(&mut w, addr, true),
        Err(WhitelistRequestsError::Whitelist(WhitelistError::AddressNotWhitelisted))
    );
}

#[test]
fn whitelist_requests_refused() {
    let mut w = Whitelist::new();
    assert_eq!(
        _add_to_whitelist(&mut w, "invalid-test-address", true),
        Err(WhitelistRequestsError::Address(AddressError::InvalidHex))
    );
    assert_eq!(
        _add_to_whitelist(&mut w, "0x654DFF41D51c230FA400205A633101C5C1f1969C", false),
        Err(WhitelistRequestsError::Caller(CallerError::CallerIsNotController))
    );
    assert_eq!(
        _get_whitelist(&w, false),
        Err(WhitelistRequestsError::Caller(CallerError::CallerIsNotController))
    );
}

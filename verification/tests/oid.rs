use customer_repo::oid::Oid;
use customer_repo::repo::page_skip;
use customer_repo::RepoError;

#[test]
fn parse_accepts_24_hex_digits_and_renders_canonically() {
    let o = Oid::parse("0123456789abcdef01234567").unwrap();
    assert_eq!(o.to_hex(), "0123456789abcdef01234567");

    // Upper-case digits are accepted; rendering is canonical lower case.
    let u = Oid::parse("0123456789ABCDEF01234567").unwrap();
    assert_eq!(u, o);
    assert_eq!(u.to_hex(), "0123456789abcdef01234567");
}

#[test]
fn parse_round_trips_through_rendering() {
    let o = Oid::parse("ffffffffffffffffffffffff").unwrap();
    let back = Oid::parse(&o.to_hex()).unwrap();
    assert_eq!(back, o);
    assert_eq!(o.to_hex(), "ffffffffffffffffffffffff");

    let z = Oid::parse("000000000000000000000000").unwrap();
    assert_eq!(z.to_hex(), "000000000000000000000000");
    assert_ne!(z, o);
}

#[test]
fn parse_rejects_malformed_identifiers() {
    assert_eq!(Oid::parse(""), Err(RepoError::MalformedId));
    assert_eq!(Oid::parse("0123456789abcdef0123456"), Err(RepoError::MalformedId));
    assert_eq!(Oid::parse("0123456789abcdef012345678"), Err(RepoError::MalformedId));
    assert_eq!(Oid::parse("0123456789abcdef0123456g"), Err(RepoError::MalformedId));
    assert_eq!(Oid::parse("not an identifier at all"), Err(RepoError::MalformedId));
}

#[test]
fn page_skip_multiplies_and_validates() {
    assert_eq!(page_skip(10, 1), Ok(0));
    assert_eq!(page_skip(10, 3), Ok(20));
    assert_eq!(page_skip(7, 5), Ok(28));
    assert_eq!(page_skip(0, 1), Err(RepoError::InvalidPagination));
    assert_eq!(page_skip(10, 0), Err(RepoError::InvalidPagination));
    assert_eq!(page_skip(-3, 2), Err(RepoError::InvalidPagination));
    assert_eq!(page_skip(i64::MAX, i64::MAX), Err(RepoError::InvalidPagination));
}

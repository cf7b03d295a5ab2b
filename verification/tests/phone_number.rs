use phone_core::phone_number::{Error, PhoneNumber};

#[test]
fn new_number() {
    let num = PhoneNumber::new(222, 333, 1234);
    assert_eq!(num.is_valid(), true);
    assert_eq!(num.area_code(), 222);
    assert_eq!(num.exchange(), 333);
    assert_eq!(num.line_number(), 1234);
}

#[test]
fn delimited_parse() {
    let num = PhoneNumber::new(333, 222, 1234);
    let res = PhoneNumber::from_utf8("333-222-1234");
    assert_eq!(res, Ok(num));
}

#[test]
fn undelimited_parse() {
    let num = PhoneNumber::new(123, 456, 1234);
    let res = PhoneNumber::from_utf8("1234561234");
    assert_eq!(res, Ok(num));
}

#[test]
fn rejects_non_numeric() {
    assert_eq!(PhoneNumber::from_utf8("abc"), Err(Error::NoNumber));
}

#[test]
fn rejects_two_groups() {
    assert_eq!(PhoneNumber::from_utf8("12-34"), Err(Error::NoNumber));
}

#[test]
fn rejects_empty() {
    assert_eq!(PhoneNumber::from_utf8(""), Err(Error::NoNumber));
}

#[test]
fn rejects_leftover_characters() {
    assert_eq!(PhoneNumber::from_utf8("333-222-1234x"), Err(Error::NoNumber));
    assert_eq!(PhoneNumber::from_utf8("12345612345"), Err(Error::NoNumber));
    assert_eq!(PhoneNumber::from_utf8("123456123"), Err(Error::NoNumber));
}

#[test]
fn rejects_overflowing_group() {
    // 99999 does not fit an unsigned 16-bit field
    assert_eq!(PhoneNumber::from_utf8("99999-1-1"), Err(Error::NoNumber));
}

#[test]
fn rejects_empty_groups() {
    assert_eq!(PhoneNumber::from_utf8("-12-34"), Err(Error::NoNumber));
    assert_eq!(PhoneNumber::from_utf8("12--34"), Err(Error::NoNumber));
    assert_eq!(PhoneNumber::from_utf8("12-34-"), Err(Error::NoNumber));
}

#[test]
fn accepts_large_groups_up_to_u16() {
    let res = PhoneNumber::from_utf8("65535-65535-65535");
    assert_eq!(res, Ok(PhoneNumber::new(65535, 65535, 65535)));
}

#[test]
fn accepts_leading_zeros() {
    let res = PhoneNumber::from_utf8("033-022-0001");
    assert_eq!(res, Ok(PhoneNumber::new(33, 22, 1)));
}

#[test]
fn delimited_not_ten_digits_wide() {
    // delimited groups may be any width, fixed-width demands exactly ten
    assert_eq!(
        PhoneNumber::from_utf8("1-2-3"),
        Ok(PhoneNumber::new(1, 2, 3))
    );
}

#[test]
fn rejects_dash_only_forms() {
    assert_eq!(PhoneNumber::from_utf8("---"), Err(Error::NoNumber));
    assert_eq!(PhoneNumber::from_utf8("1-2-3-4"), Err(Error::NoNumber));
}

use bluetooth_ctl::err::Error;
use bluetooth_ctl::types::{IpAddress, MacAddress};

#[test]
fn mac_parses_upper_case_and_writes_lower_case() {
    let mac = MacAddress::from_str("F4:4E:FD:0A:DC:4C").unwrap();
    assert_eq!(mac.bytes(), [0xF4, 0x4E, 0xFD, 0x0A, 0xDC, 0x4C]);
    assert_eq!(mac.to_string(), "f4:4e:fd:0a:dc:4c");
}

#[test]
fn mac_parses_lower_and_mixed_case() {
    let lower = MacAddress::from_str("f4:4e:fd:0a:dc:4c").unwrap();
    let mixed = MacAddress::from_str("F4:4e:Fd:0A:dC:4c").unwrap();
    assert_eq!(lower.bytes(), [0xF4, 0x4E, 0xFD, 0x0A, 0xDC, 0x4C]);
    assert_eq!(lower, mixed);
}

#[test]
fn mac_writes_two_digits_for_small_bytes() {
    let mac = MacAddress::new([0, 1, 9, 10, 15, 16]);
    assert_eq!(mac.to_string(), "00:01:09:0a:0f:10");
    let top = MacAddress::new([255, 254, 160, 171, 99, 100]);
    assert_eq!(top.to_string(), "ff:fe:a0:ab:63:64");
}

#[test]
fn mac_round_trip_over_every_byte_value() {
    for b in 0..=255u8 {
        let mac = MacAddress::new([b, b.wrapping_add(1), b.wrapping_mul(3), !b, b / 2, b ^ 0x5a]);
        let text = mac.to_string();
        assert_eq!(text.len(), 17);
        assert_eq!(MacAddress::from_str(&text), Ok(mac));
    }
}

#[test]
fn mac_with_too_few_tokens_is_refused() {
    assert_eq!(MacAddress::from_str("f4:4e:fd:0a:dc"), Err(Error::InvalidMacAddress));
    assert_eq!(MacAddress::from_str("f4"), Err(Error::InvalidMacAddress));
    assert_eq!(MacAddress::from_str(""), Err(Error::InvalidMacAddress));
}

#[test]
fn mac_with_too_many_tokens_is_refused() {
    assert_eq!(MacAddress::from_str("f4:4e:fd:0a:dc:4c:00"), Err(Error::InvalidMacAddress));
    assert_eq!(MacAddress::from_str("f4:4e:fd:0a:dc:4c:"), Err(Error::InvalidMacAddress));
    assert_eq!(MacAddress::from_str(":f4:4e:fd:0a:dc:4c"), Err(Error::InvalidMacAddress));
}

#[test]
fn mac_token_must_be_two_hex_digits() {
    assert_eq!(MacAddress::from_str("f4:4e:fd:a:dc:4c"), Err(Error::InvalidMacAddress));
    assert_eq!(MacAddress::from_str("f4:4e:fd:00a:dc:4c"), Err(Error::InvalidMacAddress));
    assert_eq!(MacAddress::from_str("f4:4e:fd::dc:4c"), Err(Error::InvalidMacAddress));
    assert_eq!(MacAddress::from_str("f4:4e:fd:+a:dc:4c"), Err(Error::InvalidMacAddress));
    assert_eq!(MacAddress::from_str("f4:4e:fd:0g:dc:4c"), Err(Error::InvalidMacAddress));
    assert_eq!(MacAddress::from_str("f4:4e:fd:0a:dc:4 "), Err(Error::InvalidMacAddress));
    assert_eq!(MacAddress::from_str("f4-4e-fd-0a-dc-4c"), Err(Error::InvalidMacAddress));
    assert_eq!(MacAddress::from_str("f4:4e:fd:0a:dc:é"), Err(Error::InvalidMacAddress));
}

#[test]
fn mac_equality_is_by_bytes() {
    let a = MacAddress::new([1, 2, 3, 4, 5, 6]);
    let b = MacAddress::new([1, 2, 3, 4, 5, 6]);
    let c = MacAddress::new([1, 2, 3, 4, 5, 7]);
    assert!(a == b);
    assert!(a != c);
}

#[test]
fn ip_parses_and_writes_the_same_text() {
    let ip = IpAddress::from_str("192.168.1.40").unwrap();
    assert_eq!(ip.bytes(), [192, 168, 1, 40]);
    assert_eq!(ip.to_string(), "192.168.1.40");
}

#[test]
fn ip_writes_without_leading_zeros() {
    assert_eq!(IpAddress::new([0, 0, 0, 0]).to_string(), "0.0.0.0");
    assert_eq!(IpAddress::new([1, 10, 100, 255]).to_string(), "1.10.100.255");
    assert_eq!(IpAddress::new([9, 99, 101, 200]).to_string(), "9.99.101.200");
}

#[test]
fn ip_round_trip_over_every_byte_value() {
    for b in 0..=255u8 {
        let ip = IpAddress::new([b, !b, b.wrapping_add(100), b / 3]);
        let text = ip.to_string();
        assert_eq!(IpAddress::from_str(&text), Ok(ip));
    }
}

#[test]
fn ip_with_wrong_token_count_is_refused() {
    assert_eq!(IpAddress::from_str("192.168.1"), Err(Error::InvalidIpAddress));
    assert_eq!(IpAddress::from_str("192.168.1.40.5"), Err(Error::InvalidIpAddress));
    assert_eq!(IpAddress::from_str("192.168.1.40."), Err(Error::InvalidIpAddress));
    assert_eq!(IpAddress::from_str(""), Err(Error::InvalidIpAddress));
}

#[test]
fn ip_token_above_255_is_refused() {
    assert_eq!(IpAddress::from_str("192.168.1.256"), Err(Error::InvalidIpAddress));
    assert_eq!(IpAddress::from_str("300.168.1.1"), Err(Error::InvalidIpAddress));
    assert_eq!(IpAddress::from_str("1.2.99999999999999999999999.4"), Err(Error::InvalidIpAddress));
    assert_eq!(IpAddress::from_str("1.2.3.0256"), Err(Error::InvalidIpAddress));
    assert_eq!(IpAddress::from_str("1.2.3.255").unwrap().bytes(), [1, 2, 3, 255]);
}

#[test]
fn ip_token_that_is_no_number_is_refused() {
    assert_eq!(IpAddress::from_str("192.168.one.40"), Err(Error::InvalidIpAddress));
    assert_eq!(IpAddress::from_str("192.168..40"), Err(Error::InvalidIpAddress));
    assert_eq!(IpAddress::from_str("192.168.-1.40"), Err(Error::InvalidIpAddress));
    assert_eq!(IpAddress::from_str("192.168.1.40 "), Err(Error::InvalidIpAddress));
    assert_eq!(IpAddress::from_str("192.168.1.+"), Err(Error::InvalidIpAddress));
    assert_eq!(IpAddress::from_str("192.168.1.4+"), Err(Error::InvalidIpAddress));
    assert_eq!(IpAddress::from_str("192.168.1.++4"), Err(Error::InvalidIpAddress));
    assert_eq!(IpAddress::from_str("192.168.1.٤"), Err(Error::InvalidIpAddress));
}

#[test]
fn ip_token_may_have_sign_and_leading_zeros() {
    assert_eq!(IpAddress::from_str("+192.168.001.0040").unwrap().bytes(), [192, 168, 1, 40]);
    assert_eq!(IpAddress::from_str("0.00.000.+0").unwrap().bytes(), [0, 0, 0, 0]);
}

#[test]
fn ip_from_same_text_is_equal_and_from_other_text_is_not() {
    let a = IpAddress::from_str("192.168.1.40").unwrap();
    let b = IpAddress::from_str("192.168.1.40").unwrap();
    let c = IpAddress::from_str("192.168.1.37").unwrap();
    assert!(a == b);
    assert!(a != c);
    assert!(a.to_string() != c.to_string());
}

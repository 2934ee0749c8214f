use phira_mp_plugin::server_commands::is_valid_ip;

#[test]
fn test_is_valid_ip() {
    assert!(is_valid_ip("192.168.1.1"));
    assert!(is_valid_ip("127.0.0.1"));
    assert!(is_valid_ip("255.255.255.255"));
    assert!(!is_valid_ip("256.0.0.1"));
    assert!(!is_valid_ip("192.168.1"));
    assert!(!is_valid_ip("192.168.1.1.1"));
}

#[test]
fn dotted_addresses_are_four_decimal_numbers_up_to_255() {
    assert!(is_valid_ip("0.0.0.0"));
    assert!(is_valid_ip("001.002.003.004"));
    assert!(is_valid_ip("+1.+2.+3.+4"));
    assert!(is_valid_ip("0000000000000000000255.1.1.1"));
    assert!(!is_valid_ip("1.2.3."));
    assert!(!is_valid_ip(".1.2.3"));
    assert!(!is_valid_ip("1.2.3.+"));
    assert!(!is_valid_ip("1.2.3.-4"));
    assert!(!is_valid_ip("1.2.3.a"));
    assert!(!is_valid_ip("1.2.3.4 "));
    assert!(!is_valid_ip("1.2.3.1000"));
    assert!(!is_valid_ip("1.2.3.99999999999999999999"));
    assert!(!is_valid_ip("a:b.c.d.e"));
    assert!(!is_valid_ip(""));
    assert!(!is_valid_ip("localhost"));
}

#[test]
fn coloned_addresses_are_hexadecimal_parts_that_may_be_empty() {
    assert!(is_valid_ip("::1"));
    assert!(is_valid_ip("::"));
    assert!(is_valid_ip(":"));
    assert!(is_valid_ip("fe80::1ff:FE23:4567:890a"));
    assert!(is_valid_ip("2001:db8:0:0:0:0:2:1"));
    assert!(is_valid_ip("+ff:0"));
    assert!(is_valid_ip("0000ffff:1"));
    assert!(!is_valid_ip("10000:1"));
    assert!(!is_valid_ip("g::1"));
    assert!(!is_valid_ip("1::-1"));
    assert!(!is_valid_ip("::ffff:1.2.3"));
    // Four parts between dots are judged as dotted, whatever else the text holds.
    assert!(!is_valid_ip("::ffff:1.2.3.4"));
}

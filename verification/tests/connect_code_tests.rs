use index_media_server::connect_code::{
    base24_to_number, compress_to_connect_code, number_to_base24, DEFAULT_HTTPS_PORT,
};

#[test]
fn test_number_to_base24() {
    assert_eq!(number_to_base24(0), "A");
    assert_eq!(number_to_base24(1), "B");
    assert_eq!(number_to_base24(23), "Z");
    assert_eq!(number_to_base24(24), "BA");
    assert_eq!(number_to_base24(25), "BB");
    assert_eq!(number_to_base24(48), "CA");
    assert_eq!(number_to_base24(575), "ZZ");
    assert_eq!(number_to_base24(576), "BAA");
}

#[test]
fn test_base24_to_number() {
    assert_eq!(base24_to_number("A"), 0);
    assert_eq!(base24_to_number("B"), 1);
    assert_eq!(base24_to_number("Z"), 23);
    assert_eq!(base24_to_number("BA"), 24);
    assert_eq!(base24_to_number("BB"), 25);
    assert_eq!(base24_to_number("CA"), 48);
    assert_eq!(base24_to_number("ZZ"), 575);
    assert_eq!(base24_to_number("BAA"), 576);
}

#[test]
fn test_format_a_192_168_0_x() {
    assert_eq!(compress_to_connect_code("192.168.0.26", DEFAULT_HTTPS_PORT), "ABC");
    assert_eq!(compress_to_connect_code("192.168.0.26", DEFAULT_HTTPS_PORT + 1), "ABCB");
    assert_eq!(compress_to_connect_code("192.168.0.255", DEFAULT_HTTPS_PORT), "ALR");
    assert_eq!(compress_to_connect_code("192.168.0.26", DEFAULT_HTTPS_PORT + 23), "ABCZ");
    assert_eq!(compress_to_connect_code("192.168.0.0", DEFAULT_HTTPS_PORT), "AAA");
}

#[test]
fn test_format_b_192_168_1_x() {
    assert_eq!(compress_to_connect_code("192.168.1.0", DEFAULT_HTTPS_PORT), "BAA");
    assert_eq!(compress_to_connect_code("192.168.1.26", DEFAULT_HTTPS_PORT), "BBC");
    assert_eq!(compress_to_connect_code("192.168.1.26", DEFAULT_HTTPS_PORT + 2), "BBCC");
    assert_eq!(compress_to_connect_code("192.168.1.255", DEFAULT_HTTPS_PORT), "BLR");
}

#[test]
fn test_format_c_10_x_x_x() {
    assert_eq!(compress_to_connect_code("10.0.0.0", DEFAULT_HTTPS_PORT), "CAAAAAA");
    assert_eq!(compress_to_connect_code("10.1.1.1", DEFAULT_HTTPS_PORT), "CABABAB");
    assert_eq!(compress_to_connect_code("10.0.0.0", DEFAULT_HTTPS_PORT + 2), "CAAAAAAC");
    assert_eq!(compress_to_connect_code("10.255.255.255", DEFAULT_HTTPS_PORT), "CLRLRLR");
}

#[test]
fn test_format_d_172_x_x_x() {
    assert_eq!(compress_to_connect_code("172.0.0.0", DEFAULT_HTTPS_PORT), "DAAAAAA");
    assert_eq!(compress_to_connect_code("172.2.2.2", DEFAULT_HTTPS_PORT + 50), "DACACACCC");
    assert_eq!(compress_to_connect_code("172.0.0.0", DEFAULT_HTTPS_PORT + 3), "DAAAAAAD");
    assert_eq!(compress_to_connect_code("172.255.255.255", DEFAULT_HTTPS_PORT), "DLRLRLR");
}

#[test]
fn test_format_f_no_compression() {
    assert_eq!(compress_to_connect_code("0.0.0.0", DEFAULT_HTTPS_PORT), "FAAAAAAAA");
    assert_eq!(compress_to_connect_code("25.25.25.25", DEFAULT_HTTPS_PORT), "FBBBBBBBB");
    assert_eq!(compress_to_connect_code("0.0.0.0", DEFAULT_HTTPS_PORT + 5), "FAAAAAAAAF");
    assert_eq!(compress_to_connect_code("0.0.0.0", 0), "FAAAAAAAAAAAA");
    assert_eq!(compress_to_connect_code("255.255.255.255", DEFAULT_HTTPS_PORT), "FLRLRLRLR");
}

#[test]
fn test_special_port_cases() {
    assert_eq!(compress_to_connect_code("192.168.0.0", 80), "AAAAADJ");
    assert_eq!(compress_to_connect_code("192.168.0.0", 443), "AAAAAUM");
    assert_eq!(compress_to_connect_code("192.168.0.0", 3000), "AAAAFFA");
    assert_eq!(compress_to_connect_code("192.168.0.26", DEFAULT_HTTPS_PORT), "ABC");
    assert_eq!(compress_to_connect_code("192.168.0.26", DEFAULT_HTTPS_PORT + 1), "ABCB");
    assert_eq!(compress_to_connect_code("192.168.0.26", DEFAULT_HTTPS_PORT + 24), "ABCBA");
    assert_eq!(compress_to_connect_code("192.168.0.26", DEFAULT_HTTPS_PORT + 26), "ABCBC");
    assert_eq!(compress_to_connect_code("192.168.0.26", 627), "ABCABCD");
    assert_eq!(compress_to_connect_code("192.168.0.0", DEFAULT_HTTPS_PORT + 80), "AAADJ");
}

#[test]
fn test_round_trip_base24() {
    for n in [0u32, 1, 7, 23, 24, 100, 575, 576, 13823, 65535] {
        assert_eq!(base24_to_number(&number_to_base24(n)), n);
    }
}

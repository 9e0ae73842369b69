use nsq::compression::{compress, decompress, detect_compression, CompressionType};
use nsq::config::{
    is_log_format, is_log_level, BaseConfig, NsqadminConfig, NsqdConfig, NsqlookupdConfig,
};
use nsq::errors::{NsqError, ProtocolError};
use nsq::http::{split_lines, split_mpub_body};
use nsq::meta::{read_meta, read_meta_line, write_meta, MetaEntry};
use nsq::text::{parse_decimal, put_decimal, split_whitespace};
use nsq::validation::{
    validate_address, validate_message_size, validate_timeout, validate_topic_channel_name,
};

#[test]
fn names_of_length_1_and_64_are_accepted() {
    assert!(validate_topic_channel_name("a").is_ok());
    assert!(validate_topic_channel_name(&"a".repeat(64)).is_ok());
    assert!(validate_topic_channel_name("Topic.name_1-x").is_ok());
}

#[test]
fn names_of_length_0_and_65_are_rejected() {
    assert_eq!(
        validate_topic_channel_name("").unwrap_err(),
        NsqError::Validation("Name cannot be empty".to_string())
    );
    assert_eq!(
        validate_topic_channel_name(&"a".repeat(65)).unwrap_err(),
        NsqError::Validation("Name too long (max 64 characters)".to_string())
    );
}

#[test]
fn names_with_other_characters_are_rejected() {
    for bad in ["a b", "a/b", "a#b", "tøpic", "a\n", "a:b", "a*"] {
        let err = validate_topic_channel_name(bad).unwrap_err();
        assert!(matches!(err, NsqError::Validation(_)), "{}", bad);
        assert!(err.message().starts_with("Name contains invalid characters"));
    }
}

#[test]
fn message_size_boundaries() {
    assert!(validate_message_size(&[], 10).is_ok());
    assert!(validate_message_size(&[0u8; 10], 10).is_ok());
    assert!(matches!(validate_message_size(&[0u8; 11], 10), Err(NsqError::Validation(_))));
    assert!(validate_message_size(&[], 0).is_ok());
}

#[test]
fn timeout_boundaries() {
    assert!(validate_timeout(0, 0).is_ok());
    assert!(validate_timeout(60_000, 60_000).is_ok());
    assert!(matches!(validate_timeout(60_001, 60_000), Err(NsqError::Validation(_))));
}

#[test]
fn addresses() {
    assert!(validate_address("127.0.0.1:4150").is_ok());
    assert!(validate_address("localhost:0").is_ok());
    assert!(validate_address("host:65535").is_ok());
    assert!(validate_address(":80").is_ok());
    assert!(validate_address("/var/run/nsqd.sock").is_ok());
    assert!(validate_address(&format!("/{}", "a".repeat(107))).is_ok());
    assert_eq!(
        validate_address("").unwrap_err(),
        NsqError::Validation("Address cannot be empty".to_string())
    );
    assert!(validate_address("host:65536").is_err());
    assert!(validate_address("host:").is_err());
    assert!(validate_address("host:port").is_err());
    assert!(validate_address("a:b:c").is_err());
    assert!(validate_address("[::1]:4150").is_err());
    assert!(validate_address("relative/path").is_err());
    assert!(validate_address("host").is_err());
    assert!(validate_address(&format!("/{}", "a".repeat(108))).is_err());
}

#[test]
fn decimal_numbers() {
    assert_eq!(parse_decimal(b"0", 10), Some(0));
    assert_eq!(parse_decimal(b"10", 10), Some(10));
    assert_eq!(parse_decimal(b"11", 10), None);
    assert_eq!(parse_decimal(b"+5", 10), Some(5));
    assert_eq!(parse_decimal(b"", 10), None);
    assert_eq!(parse_decimal(b"+", 10), None);
    assert_eq!(parse_decimal(b"-1", 10), None);
    assert_eq!(parse_decimal(b"1a", 10), None);
    assert_eq!(parse_decimal(b" 1", 10), None);
    assert_eq!(parse_decimal(b"18446744073709551615", u64::MAX), Some(u64::MAX));
    assert_eq!(parse_decimal(b"18446744073709551616", u64::MAX), None);
    assert_eq!(parse_decimal(b"99999999999999999999999", u64::MAX), None);
    let mut buf = b"n=".to_vec();
    put_decimal(&mut buf, 0);
    put_decimal(&mut buf, 1203);
    put_decimal(&mut buf, u64::MAX);
    assert_eq!(buf, b"n=0120318446744073709551615".to_vec());
}

#[test]
fn whitespace_splitting() {
    let tokens = split_whitespace(b"  REGISTER\ttopic   chan \r");
    assert_eq!(tokens, vec![b"REGISTER".to_vec(), b"topic".to_vec(), b"chan".to_vec()]);
    assert!(split_whitespace(b"").is_empty());
    assert!(split_whitespace(b" \t ").is_empty());
    assert_eq!(split_whitespace(b"one"), vec![b"one".to_vec()]);
}

#[test]
fn compression_names() {
    assert_eq!(CompressionType::from_str("none").unwrap(), CompressionType::Plain);
    assert_eq!(CompressionType::from_str("").unwrap(), CompressionType::Plain);
    assert_eq!(CompressionType::from_str("Deflate").unwrap(), CompressionType::Deflate);
    assert_eq!(CompressionType::from_str("SNAPPY").unwrap(), CompressionType::Snappy);
    assert!(matches!(CompressionType::from_str("gzip"), Err(ProtocolError::Compression(_))));
    assert!(matches!(CompressionType::from_str("none "), Err(ProtocolError::Compression(_))));
    assert_eq!(CompressionType::Plain.as_str(), "none");
    assert_eq!(CompressionType::Deflate.as_str(), "deflate");
    assert_eq!(CompressionType::Snappy.as_str(), "snappy");
}

#[test]
fn compression_detection() {
    assert_eq!(detect_compression(&[0x78, 0x9c, 0, 0]), CompressionType::Deflate);
    assert_eq!(detect_compression(&[0x78, 0x01, 0, 0]), CompressionType::Deflate);
    assert_eq!(detect_compression(&[0x78, 0x5e, 0, 0]), CompressionType::Deflate);
    assert_eq!(detect_compression(&[0x78, 0xda, 0, 0]), CompressionType::Deflate);
    assert_eq!(detect_compression(&[0x78, 0x9c, 0]), CompressionType::Plain);
    assert_eq!(detect_compression(&[0x78, 0x00, 0, 0]), CompressionType::Plain);
    assert_eq!(detect_compression(b"sNaPpY"), CompressionType::Snappy);
    assert_eq!(detect_compression(b"snap"), CompressionType::Plain);
    assert_eq!(detect_compression(b""), CompressionType::Plain);
}

#[test]
fn compression_roundtrips_through_the_codecs() {
    let data: Vec<u8> = b"abcabcabc".iter().cycle().take(900).cloned().collect();
    let plain = compress(&data, CompressionType::Plain).unwrap();
    assert_eq!(plain, data);
    assert_eq!(decompress(&plain, CompressionType::Plain).unwrap(), data);

    let deflated = compress(&data, CompressionType::Deflate).unwrap();
    assert_ne!(deflated, data);
    assert!(deflated.len() < data.len());
    assert_eq!(decompress(&deflated, CompressionType::Deflate).unwrap(), data);

    let snapped = compress(&data, CompressionType::Snappy).unwrap();
    assert_ne!(snapped, data);
    assert!(snapped.len() < data.len());
    assert_eq!(decompress(&snapped, CompressionType::Snappy).unwrap(), data);
    assert_ne!(snapped, deflated);
}

#[test]
fn decompression_rejects_corrupt_data() {
    let junk = vec![0xffu8, 0xff, 0xff, 0xff, 0xff, 0xff, 0xff, 0xff];
    assert!(matches!(decompress(&junk, CompressionType::Snappy), Err(ProtocolError::Compression(_))));
    assert!(matches!(
        decompress(&junk, CompressionType::Deflate),
        Err(ProtocolError::Compression(_))
    ));
}

#[test]
fn config_defaults() {
    let base = BaseConfig::default();
    assert_eq!(base.log_level, "info");
    assert_eq!(base.log_format, "text");
    assert_eq!(base.statsd_prefix, "nsq");
    let nsqd = NsqdConfig::default();
    assert_eq!(nsqd.tcp_address, "0.0.0.0:4150");
    assert_eq!(nsqd.http_address, "0.0.0.0:4151");
    assert_eq!(nsqd.mem_queue_size, 10000);
    assert_eq!(nsqd.max_msg_size, 1024 * 1024);
    assert_eq!(nsqd.max_body_size, 5 * 1024 * 1024);
    assert_eq!(nsqd.max_req_timeout, 60 * 1000);
    assert_eq!(nsqd.max_msg_timeout, 15 * 60 * 1000);
    assert_eq!(nsqd.msg_timeout, 60 * 1000);
    assert_eq!(nsqd.max_rdy_count, 2500);
    let lookupd = NsqlookupdConfig::default();
    assert_eq!(lookupd.tcp_address, "0.0.0.0:4160");
    assert_eq!(lookupd.http_address, "0.0.0.0:4161");
    assert_eq!(lookupd.inactive_producer_timeout, 300 * 1000);
    assert_eq!(lookupd.tombstone_lifetime, 45 * 1000);
    let admin = NsqadminConfig::default();
    assert_eq!(admin.http_address, "0.0.0.0:4171");
    assert_eq!(admin.lookupd_http_addresses, vec!["127.0.0.1:4161".to_string()]);
}

#[test]
fn lookupd_settings_are_checked() {
    let good = NsqlookupdConfig::default();
    assert!(good.validate().is_ok());

    let mut c = NsqlookupdConfig::default();
    c.inactive_producer_timeout = 0;
    assert!(matches!(c.validate(), Err(NsqError::Config(_))));

    let mut c = NsqlookupdConfig::default();
    c.tombstone_lifetime = 0;
    assert!(matches!(c.validate(), Err(NsqError::Config(_))));

    let mut c = NsqlookupdConfig::default();
    c.base.log_level = "loud".to_string();
    assert!(matches!(c.validate(), Err(NsqError::Config(_))));

    let mut c = NsqlookupdConfig::default();
    c.base.log_format = "xml".to_string();
    assert!(matches!(c.validate(), Err(NsqError::Config(_))));

    let mut c = NsqlookupdConfig::default();
    c.tcp_address = "nonsense".to_string();
    assert!(matches!(c.validate(), Err(NsqError::Config(_))));

    let mut c = NsqlookupdConfig::default();
    c.http_address = String::new();
    assert!(c.validate().is_ok());

    assert!(is_log_level("trace") && is_log_level("error") && !is_log_level("INFO"));
    assert!(is_log_format("json") && !is_log_format("yaml"));
}

#[test]
fn mpub_bodies() {
    assert_eq!(split_lines(b"a\nbb\n\nccc"), vec![b"a".to_vec(), b"bb".to_vec(), b"ccc".to_vec()]);
    assert_eq!(split_lines(b"\n\na\n"), vec![b"a".to_vec()]);
    assert!(split_lines(b"").is_empty());
    assert!(split_lines(b"\n").is_empty());
    let text = split_mpub_body(b"x\ny", false).unwrap();
    assert_eq!(text, vec![b"x".to_vec(), b"y".to_vec()]);
    let binary =
        split_mpub_body(b"\x00\x00\x00\x02\x00\x00\x00\x01a\x00\x00\x00\x00", true).unwrap();
    assert_eq!(binary, vec![b"a".to_vec(), Vec::new()]);
    assert!(matches!(
        split_mpub_body(b"\x00\x00\x00\x02\x00\x00\x00\x01a", true),
        Err(NsqError::Validation(_))
    ));
}

#[test]
fn meta_file() {
    let entries = vec![
        MetaEntry { channel_name: "orders".to_string(), depth: 12, in_flight: 3 },
        MetaEntry { channel_name: "a.b_c-d".to_string(), depth: 0, in_flight: u64::MAX },
    ];
    let bytes = write_meta(&entries);
    assert_eq!(bytes, b"orders\t12\t3\na.b_c-d\t0\t18446744073709551615\n".to_vec());
    assert_eq!(read_meta(&bytes), Some(entries));
    assert_eq!(read_meta(b""), Some(Vec::new()));
    assert_eq!(read_meta(b"\n\n"), Some(Vec::new()));
    assert_eq!(
        read_meta(b"c\t1\t2"),
        Some(vec![MetaEntry { channel_name: "c".to_string(), depth: 1, in_flight: 2 }])
    );
    assert_eq!(read_meta(b"c\t1\t2\nbroken\n"), None);
    assert_eq!(read_meta_line(b"c\t1"), None);
    assert_eq!(read_meta_line(b"c\t1\t2\t3"), None);
    assert_eq!(read_meta_line(b"\t1\t2"), None);
    assert_eq!(read_meta_line(b"bad name\t1\t2"), None);
    assert_eq!(read_meta_line(b"c\tx\t2"), None);
    assert_eq!(read_meta_line(b"c\t1\t"), None);
    assert_eq!(read_meta_line(b"c\t1\t18446744073709551616"), None);
    assert!(write_meta(&Vec::new()).is_empty());
}

fn refusal(res: Result<(), NsqError>) -> String {
    match res {
        Err(NsqError::Validation(text)) => text,
        other => panic!("no validation error: {:?}", other),
    }
}

#[test]
fn refusals_tell_what_was_wrong() {
    assert_eq!(
        refusal(validate_message_size(&[0u8; 11], 10)),
        "Message too large: 11 bytes (max: 10 bytes)"
    );
    assert_eq!(refusal(validate_message_size(&[7u8], 0)), "Message too large: 1 bytes (max: 0 bytes)");
    assert_eq!(refusal(validate_timeout(60_001, 60_000)), "Timeout too large: 60001ms (max: 60000ms)");
    assert_eq!(
        refusal(validate_timeout(u64::MAX, 0)),
        "Timeout too large: 18446744073709551615ms (max: 0ms)"
    );
    assert_eq!(refusal(validate_address("a:b:c")), "Invalid TCP address format");
    assert_eq!(refusal(validate_address("[::1]:4150")), "Invalid TCP address format");
    assert_eq!(refusal(validate_address("host:65536")), "Invalid port number");
    assert_eq!(refusal(validate_address("host:")), "Invalid port number");
    assert_eq!(refusal(validate_address("host:-1")), "Invalid port number");
    assert_eq!(refusal(validate_address("host")), "Invalid address format");
    assert_eq!(refusal(validate_address("relative/path")), "Invalid address format");
    assert_eq!(
        refusal(validate_address(&format!("/{}", "a".repeat(108)))),
        "Unix socket path too long"
    );
    assert_eq!(refusal(validate_topic_channel_name("")), "Name cannot be empty");
    assert_eq!(
        refusal(validate_topic_channel_name(&"n".repeat(65))),
        "Name too long (max 64 characters)"
    );
}

#[test]
fn unknown_compression_is_named() {
    assert_eq!(
        CompressionType::from_str("gzip"),
        Err(ProtocolError::Compression("Unknown compression type: gzip".to_string()))
    );
    assert_eq!(
        CompressionType::from_str("De flate"),
        Err(ProtocolError::Compression("Unknown compression type: De flate".to_string()))
    );
    assert_eq!(CompressionType::from_str("DEFLATE"), Ok(CompressionType::Deflate));
}

#[test]
fn the_first_wrong_setting_is_named() {
    let mut c = NsqlookupdConfig::default();
    c.base.log_format = "xml".to_string();
    assert_eq!(
        c.validate(),
        Err(NsqError::Config("Invalid log format 'xml'. Must be one of: text, json".to_string()))
    );
    c.base.log_level = "loud".to_string();
    assert_eq!(
        c.validate(),
        Err(NsqError::Config(
            "Invalid log level 'loud'. Must be one of: trace, debug, info, warn, error".to_string()
        ))
    );
    c.tombstone_lifetime = 0;
    assert_eq!(
        c.validate(),
        Err(NsqError::Config("tombstone_lifetime must be greater than 0".to_string()))
    );
    c.inactive_producer_timeout = 0;
    assert_eq!(
        c.validate(),
        Err(NsqError::Config("inactive_producer_timeout must be greater than 0".to_string()))
    );
    c.http_address = "a:b:c".to_string();
    assert_eq!(c.validate(), Err(NsqError::Config("Invalid HTTP address 'a:b:c'".to_string())));
    c.tcp_address = "nonsense".to_string();
    assert_eq!(c.validate(), Err(NsqError::Config("Invalid TCP address 'nonsense'".to_string())));
}

use gxr::classify::{
    classify_output, classify_text, decode_output, extract_response_time, latency_of_text,
    shows_answer, Platform,
};

fn millis(latency: Option<gxr::latency::Latency>) -> Option<f64> {
    latency.map(|l| l.as_str().parse::<f64>().unwrap())
}

#[test]
fn test_extract_response_time_windows() {
    let output = b"Reply from 192.168.1.1: bytes=32 time=15ms TTL=64";
    let time = millis(extract_response_time(output));
    assert_eq!(time, Some(15.0));
}

#[test]
fn test_extract_response_time_linux() {
    let output = b"64 bytes from 192.168.1.1: icmp_seq=1 ttl=64 time=1.23 ms";
    let time = millis(extract_response_time(output));
    assert_eq!(time, Some(1.23));
}

#[test]
fn test_extract_response_time_chinese() {
    let output = "来自 192.168.1.1 的回复: 字节=32 时间=20ms TTL=64".as_bytes();
    let time = millis(extract_response_time(output));
    assert_eq!(time, Some(20.0));
}

#[test]
fn test_extract_response_time_none() {
    let output = b"Request timeout for icmp_seq 1";
    let time = millis(extract_response_time(output));
    assert_eq!(time, None);
}

#[test]
fn english_reply_is_a_success_with_latency() {
    let output = b"Reply from 192.168.1.1: bytes=32 time=15ms TTL=64";
    let v = classify_output(Platform::MillisecondTimeout, output, false);
    assert!(v.success);
    assert_eq!(millis(v.latency), Some(15.0));
}

#[test]
fn decimal_family_goes_by_the_exit_status() {
    let output = b"64 bytes from 192.168.1.1: icmp_seq=1 ttl=64 time=1.23 ms";
    let v = classify_output(Platform::DecimalTimeout, output, true);
    assert!(v.success);
    assert_eq!(millis(v.latency), Some(1.23));
    let v = classify_output(Platform::DecimalTimeout, output, false);
    assert!(!v.success);
    assert!(v.latency.is_none());
    let v = classify_output(Platform::DecimalTimeout, b"PING 10.0.0.1: 56 data bytes", true);
    assert!(v.success);
    assert!(v.latency.is_none());
}

#[test]
fn localized_reply_is_a_success_with_latency() {
    let text = "来自 192.168.1.1 的回复: 字节=32 时间=20ms TTL=64";
    let v = classify_output(Platform::MillisecondTimeout, text.as_bytes(), false);
    assert!(v.success);
    assert_eq!(millis(v.latency), Some(20.0));
}

#[test]
fn localized_reply_in_gbk_is_decoded() {
    let text = "来自 192.168.1.1 的回复: 字节=32 时间=20ms";
    let (bytes, _, _) = encoding_rs::GBK.encode(text);
    assert!(std::str::from_utf8(&bytes).is_err());
    assert_eq!(decode_output(Platform::MillisecondTimeout, &bytes), text);
    let v = classify_output(Platform::MillisecondTimeout, &bytes, false);
    assert!(v.success);
    assert_eq!(millis(v.latency), Some(20.0));
    let only_words = encoding_rs::GBK.encode("来自").0;
    assert!(classify_output(Platform::MillisecondTimeout, &only_words, false).success);
}

#[test]
fn timeout_is_a_failure_without_latency() {
    let output = b"Request timeout for icmp_seq 1";
    let v = classify_output(Platform::MillisecondTimeout, output, true);
    assert!(!v.success);
    assert!(v.latency.is_none());
    let v = classify_output(Platform::DecimalTimeout, output, false);
    assert!(!v.success);
    assert!(v.latency.is_none());
}

#[test]
fn no_output_is_a_failure() {
    let v = classify_output(Platform::MillisecondTimeout, b"", true);
    assert!(!v.success);
    assert!(v.latency.is_none());
    let v = classify_output(Platform::DecimalTimeout, b"", true);
    assert!(!v.success);
    assert!(v.latency.is_none());
    assert!(!classify_text(Platform::DecimalTimeout, "", true).success);
}

#[test]
fn output_is_lower_cased_before_matching() {
    assert_eq!(decode_output(Platform::MillisecondTimeout, b"TTL=64 Time=3MS"), "ttl=64 time=3ms");
    assert_eq!(decode_output(Platform::DecimalTimeout, b"TTL=64 Time=3MS"), "ttl=64 time=3ms");
    let v = classify_output(Platform::MillisecondTimeout, b"TTL=64", false);
    assert!(v.success);
    assert!(v.latency.is_none());
    assert_eq!(millis(extract_response_time(b"TIME=7ms")), Some(7.0));
}

#[test]
fn invalid_utf8_is_replaced_on_the_decimal_family() {
    assert_eq!(
        decode_output(Platform::DecimalTimeout, b"\xfftime=5ms"),
        "\u{fffd}time=5ms"
    );
    assert_eq!(millis(extract_response_time(b"\xff\xfe time=5 ms")), Some(5.0));
}

#[test]
fn each_success_marker_counts() {
    for text in ["回复", "来自", "reply from x", "ttl=1", "bytes=32", "time=1"] {
        assert!(shows_answer(text));
    }
    for text in ["", "reply", "ttl", "time", "request timed out", "destination host unreachable", "100% packet loss"] {
        assert!(!shows_answer(text));
    }
}

#[test]
fn markers_are_tried_in_their_order() {
    assert_eq!(millis(latency_of_text("latency=9 time=4")), Some(4.0));
    assert_eq!(millis(latency_of_text("时间=8ms latency=9")), Some(8.0));
    assert_eq!(millis(latency_of_text("latency=9ms")), Some(9.0));
    assert_eq!(millis(latency_of_text("time=1 time=2")), Some(1.0));
}

#[test]
fn numeral_is_the_first_run_after_the_marker() {
    assert_eq!(millis(latency_of_text("time=<1ms")), Some(1.0));
    assert_eq!(millis(latency_of_text("time= 0.5 ms")), Some(0.5));
    assert_eq!(millis(latency_of_text("time=abc 12.5")), Some(12.5));
    assert_eq!(millis(latency_of_text("time=.5")), Some(0.5));
    assert_eq!(millis(latency_of_text("time=5.")), Some(5.0));
    assert_eq!(millis(latency_of_text("time=")), None);
    assert_eq!(millis(latency_of_text("time=ms")), None);
    assert_eq!(millis(latency_of_text("no marker 15")), None);
}

#[test]
fn negative_and_malformed_numerals_give_no_latency() {
    assert_eq!(millis(latency_of_text("time=-1ms")), None);
    assert_eq!(millis(latency_of_text("time=-0.5")), None);
    assert_eq!(millis(latency_of_text("time=1.2.3")), None);
    assert_eq!(millis(latency_of_text("time=1-2")), None);
    assert_eq!(millis(latency_of_text("time=- 5")), None);
    assert_eq!(millis(latency_of_text("time=.")), None);
    assert_eq!(millis(latency_of_text("time=-0ms")), Some(0.0));
}

#[test]
fn classify_text_gives_latency_only_on_success() {
    let v = classify_text(Platform::DecimalTimeout, "time=3 ms", false);
    assert!(!v.success);
    assert!(v.latency.is_none());
    let v = classify_text(Platform::DecimalTimeout, "time=3 ms", true);
    assert!(v.success);
    assert_eq!(v.latency.unwrap().as_str(), "3");
    let v = classify_text(Platform::MillisecondTimeout, "bytes=32", false);
    assert!(v.success);
    assert!(v.latency.is_none());
}

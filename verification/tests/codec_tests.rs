//! Classification and framing of protocol lines.

use prism_ipc::codec::{encode_envelope, payload_is_valid, StdoutMessage};
use prism_ipc::engine::PythonEngine;

fn classify(line: &[u8]) -> Option<StdoutMessage> {
    PythonEngine::parse_stdout(line)
}

#[test]
fn handshake_line_parses() {
    let r = classify(b"{\"status\":\"ready\",\"version\":\"1.2.3\",\"pid\":42}");
    match r {
        Some(StdoutMessage::Ready(sig)) => {
            assert_eq!(sig.status, b"ready".to_vec());
            assert_eq!(sig.version, b"1.2.3".to_vec());
            assert_eq!(sig.pid, 42);
        }
        _ => panic!("expected a handshake"),
    }
}

#[test]
fn handshake_tolerates_whitespace_and_extra_members() {
    let r = classify(b"  { \"pid\" : 7 , \"extra\" : [1, 2, {\"a\": null}] , \"version\" : \"9\" , \"status\" : \"ready\" }  ");
    match r {
        Some(StdoutMessage::Ready(sig)) => {
            assert_eq!(sig.version, b"9".to_vec());
            assert_eq!(sig.pid, 7);
        }
        _ => panic!("expected a handshake"),
    }
}

#[test]
fn handshake_with_escaped_status_still_counts() {
    // \u0072 unescapes to 'r': the status member still reads `ready`
    let r = classify(b"{\"status\":\"\\u0072eady\",\"version\":\"v\",\"pid\":1}");
    assert!(matches!(r, Some(StdoutMessage::Ready(_))));
}

#[test]
fn handshake_missing_version_is_diagnostic() {
    assert!(classify(b"{\"status\":\"ready\",\"pid\":42}").is_none());
}

#[test]
fn handshake_pid_out_of_range_is_diagnostic() {
    assert!(classify(b"{\"status\":\"ready\",\"version\":\"1\",\"pid\":4294967296}").is_none());
    assert!(classify(b"{\"status\":\"ready\",\"version\":\"1\",\"pid\":-1}").is_none());
    assert!(classify(b"{\"status\":\"ready\",\"version\":\"1\",\"pid\":42.0}").is_none());
}

#[test]
fn response_with_data_keeps_raw_payload() {
    let r = classify(b"{\"id\":7,\"status\":\"success\",\"data\":{\"x\":1}}");
    match r {
        Some(StdoutMessage::Response(resp)) => {
            assert_eq!(resp.id, 7);
            assert_eq!(resp.status, b"success".to_vec());
            assert_eq!(resp.data, Some(b"{\"x\":1}".to_vec()));
            assert!(resp.error.is_none());
        }
        _ => panic!("expected a response"),
    }
}

#[test]
fn response_with_error_object() {
    let r = classify(b"{\"id\":3,\"status\":\"error\",\"error\":{\"code\":\"E1\",\"message\":\"boom\"}}");
    match r {
        Some(StdoutMessage::Response(resp)) => {
            assert_eq!(resp.id, 3);
            assert_eq!(resp.status, b"error".to_vec());
            assert!(resp.data.is_none());
            let err = resp.error.expect("error details");
            assert_eq!(err.code, b"E1".to_vec());
            assert_eq!(err.message, b"boom".to_vec());
        }
        _ => panic!("expected a response"),
    }
}

#[test]
fn response_null_data_and_null_error_read_as_absent() {
    let r = classify(b"{\"id\":1,\"status\":\"success\",\"data\":null,\"error\":null}");
    match r {
        Some(StdoutMessage::Response(resp)) => {
            assert!(resp.data.is_none());
            assert!(resp.error.is_none());
        }
        _ => panic!("expected a response"),
    }
}

#[test]
fn response_error_missing_message_is_diagnostic() {
    assert!(classify(b"{\"id\":1,\"status\":\"error\",\"error\":{\"code\":\"E\"}}").is_none());
    assert!(classify(b"{\"id\":1,\"status\":\"error\",\"error\":\"broken\"}").is_none());
}

#[test]
fn response_bad_id_is_diagnostic() {
    assert!(classify(b"{\"id\":\"7\",\"status\":\"success\"}").is_none());
    assert!(classify(b"{\"id\":7.0,\"status\":\"success\"}").is_none());
    assert!(classify(b"{\"id\":-7,\"status\":\"success\"}").is_none());
    assert!(classify(b"{\"id\":7e2,\"status\":\"success\"}").is_none());
    // one past u64::MAX
    assert!(classify(b"{\"id\":18446744073709551616,\"status\":\"success\"}").is_none());
}

#[test]
fn response_id_at_u64_max_parses() {
    let r = classify(b"{\"id\":18446744073709551615,\"status\":\"ok\"}");
    match r {
        Some(StdoutMessage::Response(resp)) => assert_eq!(resp.id, u64::MAX),
        _ => panic!("expected a response"),
    }
}

#[test]
fn malformed_line_is_diagnostic() {
    assert!(classify(b"not json at all").is_none());
    assert!(classify(b"").is_none());
    assert!(classify(b"   ").is_none());
    assert!(classify(b"{\"id\":1,\"status\":\"s\"").is_none());
    assert!(classify(b"{\"id\":1,\"status\":\"s\"} trailing").is_none());
    assert!(classify(b"[1,2,3]").is_none());
    assert!(classify(b"42").is_none());
    assert!(classify(b"{\"id\":01,\"status\":\"s\"}").is_none());
    assert!(classify(b"{\"id\":1,\"status\":\"s\",}").is_none());
    assert!(classify(b"{'id':1}").is_none());
}

#[test]
fn repeated_key_reads_as_last_occurrence() {
    let r = classify(b"{\"id\":1,\"status\":\"partial\",\"status\":\"success\"}");
    match r {
        Some(StdoutMessage::Response(resp)) => assert_eq!(resp.status, b"success".to_vec()),
        _ => panic!("expected a response"),
    }
    // a malformed earlier error member is overridden by a later null
    let r2 = classify(b"{\"id\":2,\"status\":\"s\",\"error\":\"bad\",\"error\":null}");
    assert!(matches!(r2, Some(StdoutMessage::Response(_))));
}

#[test]
fn string_escapes_unescape() {
    let r = classify(b"{\"id\":1,\"status\":\"a\\\"b\\\\c\\/d\\n\\t\\u0041\"}");
    match r {
        Some(StdoutMessage::Response(resp)) => {
            assert_eq!(resp.status, b"a\"b\\c/d\n\tA".to_vec());
        }
        _ => panic!("expected a response"),
    }
}

#[test]
fn surrogate_pairs_decode_to_utf8() {
    // \uD83D\uDE00 is U+1F600
    let r = classify(b"{\"id\":1,\"status\":\"x\\uD83D\\uDE00y\"}");
    match r {
        Some(StdoutMessage::Response(resp)) => {
            assert_eq!(resp.status, "x\u{1F600}y".as_bytes().to_vec());
        }
        _ => panic!("expected a response"),
    }
    // a lone surrogate is not a protocol string
    assert!(classify(b"{\"id\":1,\"status\":\"\\uD83D\"}").is_none());
    assert!(classify(b"{\"id\":1,\"status\":\"\\uDE00\"}").is_none());
}

#[test]
fn control_bytes_must_be_escaped() {
    assert!(classify(b"{\"id\":1,\"status\":\"a\x01b\"}").is_none());
    let r = classify(b"{\"id\":1,\"status\":\"a\\u0001b\"}");
    match r {
        Some(StdoutMessage::Response(resp)) => assert_eq!(resp.status, b"a\x01b".to_vec()),
        _ => panic!("expected a response"),
    }
}

#[test]
fn nesting_beyond_the_limit_is_diagnostic() {
    // data nested 130 levels: deeper than a stream parser accepts
    let mut line = b"{\"id\":1,\"status\":\"s\",\"data\":".to_vec();
    for _ in 0..130 {
        line.push(b'[');
    }
    line.push(b'1');
    for _ in 0..130 {
        line.push(b']');
    }
    line.push(b'}');
    assert!(classify(&line).is_none());
    // a modest nesting passes
    let ok = classify(b"{\"id\":1,\"status\":\"s\",\"data\":[[[[1]]]]}");
    assert!(matches!(ok, Some(StdoutMessage::Response(_))));
}

#[test]
fn escaped_key_still_counts() {
    // the key \u0073tatus unescapes to `status`
    let r = classify(b"{\"\\u0073tatus\":\"ready\",\"version\":\"v\",\"pid\":1}");
    assert!(matches!(r, Some(StdoutMessage::Ready(_))));
}

#[test]
fn keys_and_status_are_case_sensitive() {
    // `Status` is not the status member; without an id the line is diagnostic
    assert!(classify(b"{\"Status\":\"ready\",\"version\":\"v\",\"pid\":1}").is_none());
    // `Ready` is not the ready marker; without an id the line is diagnostic
    assert!(classify(b"{\"status\":\"Ready\",\"version\":\"v\",\"pid\":1}").is_none());
}

#[test]
fn non_string_status_is_diagnostic() {
    assert!(classify(b"{\"status\":[\"ready\"],\"version\":\"v\",\"pid\":1}").is_none());
    assert!(classify(b"{\"id\":1,\"status\":17}").is_none());
}

#[test]
fn version_keeps_non_ascii_bytes() {
    let line = "{\"status\":\"ready\",\"version\":\"β1\",\"pid\":1}".as_bytes();
    match classify(line) {
        Some(StdoutMessage::Ready(sig)) => {
            assert_eq!(sig.version, "β1".as_bytes().to_vec());
        }
        _ => panic!("expected a handshake"),
    }
}

#[test]
fn handshake_takes_precedence_over_response_shape() {
    // a line with both a ready status and an id is a handshake
    let r = classify(b"{\"id\":9,\"status\":\"ready\",\"version\":\"v\",\"pid\":3}");
    assert!(matches!(r, Some(StdoutMessage::Ready(_))));
}

#[test]
fn envelope_is_exact_single_line_json() {
    let frame = encode_envelope(5, b"ping", b"{}");
    assert_eq!(frame, b"{\"id\":5,\"command\":\"ping\",\"payload\":{}}\n".to_vec());
    let big = encode_envelope(18446744073709551615, b"x", b"[1,2]");
    assert_eq!(
        big,
        b"{\"id\":18446744073709551615,\"command\":\"x\",\"payload\":[1,2]}\n".to_vec()
    );
}

#[test]
fn envelope_escapes_command_name() {
    let frame = encode_envelope(1, b"a\"b\\c\nd\x01", b"null");
    assert_eq!(
        frame,
        b"{\"id\":1,\"command\":\"a\\\"b\\\\c\\nd\\u0001\",\"payload\":null}\n".to_vec()
    );
}

#[test]
fn payload_validity_checks_whole_text() {
    assert!(payload_is_valid(b"{}"));
    assert!(payload_is_valid(b" 42 "));
    assert!(payload_is_valid(b"{\"a\":[1,2,\"x\"]}"));
    assert!(payload_is_valid(b"null"));
    assert!(!payload_is_valid(b""));
    assert!(!payload_is_valid(b"1 2"));
    assert!(!payload_is_valid(b"not json"));
    assert!(!payload_is_valid(b"{\"a\":}"));
}

#[test]
fn number_grammar_edges() {
    assert!(payload_is_valid(b"0"));
    assert!(payload_is_valid(b"-0"));
    assert!(payload_is_valid(b"0.5"));
    assert!(payload_is_valid(b"-0.5"));
    assert!(payload_is_valid(b"1e+5"));
    assert!(payload_is_valid(b"1E-5"));
    assert!(payload_is_valid(b"12.25e3"));
    assert!(!payload_is_valid(b"00"));
    assert!(!payload_is_valid(b"01.5"));
    assert!(!payload_is_valid(b"0."));
    assert!(!payload_is_valid(b".5"));
    assert!(!payload_is_valid(b"1e"));
    assert!(!payload_is_valid(b"1e+"));
    assert!(!payload_is_valid(b"-"));
    assert!(!payload_is_valid(b"+1"));
    assert!(!payload_is_valid(b"0x1"));
}

#[test]
fn response_id_zero_parses() {
    let r = classify(b"{\"id\":0,\"status\":\"s\"}");
    match r {
        Some(StdoutMessage::Response(resp)) => assert_eq!(resp.id, 0),
        _ => panic!("expected a response"),
    }
}

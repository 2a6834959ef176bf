use broadcast_hub::{decode, decode_fields, encode, DecodeError, JsonField, Number, WsMessage};

fn num(s: &str) -> Number {
    Number::parse(s).unwrap()
}

fn calc() -> WsMessage {
    WsMessage::Calculation {
        operation: "add".to_string(),
        result: num("7"),
        timestamp: "2024-05-01T10:00:00Z".to_string(),
    }
}

#[test]
fn round_trip_calculation() {
    let m = calc();
    assert_eq!(decode(&encode(&m)), Ok(m));
}

#[test]
fn round_trip_fractional_result() {
    let m = WsMessage::Calculation {
        operation: "divide".to_string(),
        result: num("-2.5e-3"),
        timestamp: "t".to_string(),
    };
    assert_eq!(decode(&encode(&m)), Ok(m));
}

#[test]
fn round_trip_chat_with_quotes_and_unicode() {
    let m = WsMessage::Chat {
        user: "127.0.0.1:5000".to_string(),
        message: "say \"hi\"\n\\ 🦀".to_string(),
        timestamp: "2024-05-01T10:00:00Z".to_string(),
    };
    assert_eq!(decode(&encode(&m)), Ok(m));
}

#[test]
fn round_trip_system() {
    let m = WsMessage::System { message: "started".to_string(), timestamp: "now".to_string() };
    assert_eq!(decode(&encode(&m)), Ok(m));
}

#[test]
fn round_trip_ping_pong() {
    assert_eq!(decode(&encode(&WsMessage::Ping)), Ok(WsMessage::Ping));
    assert_eq!(decode(&encode(&WsMessage::Pong)), Ok(WsMessage::Pong));
}

#[test]
fn encode_ping_is_canonical() {
    assert_eq!(encode(&WsMessage::Ping), "{\"type\":\"ping\"}");
    assert_eq!(encode(&WsMessage::Pong), "{\"type\":\"pong\"}");
}

#[test]
fn encode_calculation_is_canonical() {
    assert_eq!(
        encode(&calc()),
        "{\"type\":\"calculation\",\"operation\":\"add\",\"result\":7,\"timestamp\":\"2024-05-01T10:00:00Z\"}"
    );
}

#[test]
fn encode_escapes_string_fields() {
    let m = WsMessage::Chat { user: "a\"b".to_string(), message: "x\ny".to_string(), timestamp: "t".to_string() };
    assert_eq!(
        encode(&m),
        "{\"type\":\"chat\",\"user\":\"a\\\"b\",\"message\":\"x\\ny\",\"timestamp\":\"t\"}"
    );
}

#[test]
fn decode_ignores_member_order_and_extra_members() {
    let text = "{ \"timestamp\": \"t\", \"extra\": [1, 2], \"message\": \"m\", \"type\": \"system\" }";
    assert_eq!(decode(text), Ok(WsMessage::System { message: "m".to_string(), timestamp: "t".to_string() }));
}

#[test]
fn decode_non_json_is_malformed() {
    assert_eq!(decode("hello"), Err(DecodeError::Malformed));
    assert_eq!(decode(""), Err(DecodeError::Malformed));
    assert_eq!(decode("[1,2]"), Err(DecodeError::Malformed));
    assert_eq!(decode("\"type\""), Err(DecodeError::Malformed));
}

#[test]
fn decode_unknown_type() {
    assert_eq!(decode("{\"type\":\"dance\"}"), Err(DecodeError::UnknownType));
    assert_eq!(decode("{}"), Err(DecodeError::UnknownType));
    assert_eq!(decode("{\"type\":3}"), Err(DecodeError::UnknownType));
}

#[test]
fn decode_invalid_fields() {
    assert_eq!(decode("{\"type\":\"chat\",\"user\":\"u\"}"), Err(DecodeError::InvalidFields));
    assert_eq!(
        decode("{\"type\":\"calculation\",\"operation\":\"add\",\"result\":\"7\",\"timestamp\":\"t\"}"),
        Err(DecodeError::InvalidFields)
    );
    assert_eq!(decode("{\"type\":\"system\",\"message\":5,\"timestamp\":\"t\"}"), Err(DecodeError::InvalidFields));
}

#[test]
fn decode_fields_reads_first_member_of_a_name() {
    let fields = vec![
        ("type".to_string(), JsonField::Text("chat".to_string())),
        ("user".to_string(), JsonField::Text("u1".to_string())),
        ("user".to_string(), JsonField::Text("u2".to_string())),
        ("message".to_string(), JsonField::Text("m".to_string())),
        ("timestamp".to_string(), JsonField::Text("t".to_string())),
    ];
    assert_eq!(
        decode_fields(&fields),
        Ok(WsMessage::Chat { user: "u1".to_string(), message: "m".to_string(), timestamp: "t".to_string() })
    );
}

#[test]
fn decode_fields_rejects_bad_number_text() {
    let fields = vec![
        ("type".to_string(), JsonField::Text("calculation".to_string())),
        ("operation".to_string(), JsonField::Text("add".to_string())),
        ("result".to_string(), JsonField::Number("01".to_string())),
        ("timestamp".to_string(), JsonField::Text("t".to_string())),
    ];
    assert_eq!(decode_fields(&fields), Err(DecodeError::InvalidFields));
    assert_eq!(decode_fields(&vec![("type".to_string(), JsonField::Other)]), Err(DecodeError::UnknownType));
}

#[test]
fn number_grammar() {
    for ok in ["0", "7", "-7", "12.5", "1e+10", "1e-2", "-0.0e-1", "100"] {
        assert!(Number::parse(ok).is_some(), "{}", ok);
        assert_eq!(Number::parse(ok).unwrap().as_str(), ok);
    }
    for bad in ["", "-", "01", "1.", ".5", "1e", "1e+", "+1", "1a", "NaN", " 1", "1e5", "1E+2", "1E5"] {
        assert!(Number::parse(bad).is_none(), "{}", bad);
    }
}

#[test]
fn welcome_and_fallback_messages() {
    assert_eq!(
        WsMessage::welcome("c9", "t"),
        WsMessage::System { message: "Welcome! You are connected as c9".to_string(), timestamp: "t".to_string() }
    );
    assert_eq!(
        WsMessage::fallback_chat("c1", "hello", "t"),
        WsMessage::Chat { user: "c1".to_string(), message: "hello".to_string(), timestamp: "t".to_string() }
    );
}

#[test]
fn encode_escapes_control_characters() {
    let m = WsMessage::System { message: "a\u{1}\t\u{1f}\\".to_string(), timestamp: "t".to_string() };
    assert_eq!(
        encode(&m),
        "{\"type\":\"system\",\"message\":\"a\\u0001\\t\\u001f\\\\\",\"timestamp\":\"t\"}"
    );
    assert_eq!(decode(&encode(&m)), Ok(m));
}

#[test]
fn round_trip_exponent_results() {
    for text in ["1e+5", "-1.5e-7", "0e+0", "12e+300"] {
        let m = WsMessage::Calculation {
            operation: "pow".to_string(),
            result: num(text),
            timestamp: "t".to_string(),
        };
        assert_eq!(decode(&encode(&m)), Ok(m));
    }
}

#[test]
fn wire_exponents_decode_to_canonical_text() {
    let got = decode("{\"type\":\"calculation\",\"operation\":\"pow\",\"result\":1E5,\"timestamp\":\"t\"}");
    let expected = WsMessage::Calculation { operation: "pow".to_string(), result: num("1e+5"), timestamp: "t".to_string() };
    assert_eq!(got, Ok(expected.clone()));
    assert_eq!(decode(&encode(&expected)), Ok(expected));
}

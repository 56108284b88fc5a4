use esm_message::data::{Data, Init, Query, QueryResult, SendToChannel, Sqf, SqfResult, StringMap};
use esm_message::envelope::{message_from_json, message_to_json};
use esm_message::error::{DecodeError, Error, ErrorType};
use esm_message::json::render_json;
use esm_message::metadata::{Command, Metadata, Player};
use esm_message::arma_value::ArmaValue;
use esm_message::parser::{decode_payload, replace_arma_escape_characters};
use esm_message::{data_is_empty, errors_is_empty, metadata_is_empty, Message, Type};

fn test_init() -> Init {
    Init {
        extension_version: "2.0.0".into(),
        price_per_object: "10".into(),
        server_name: "server_name".into(),
        server_start_time: chrono::Utc::now().to_rfc3339(),
        territory_data: "[]".into(),
        territory_lifetime: "7".into(),
        vg_enabled: false,
        vg_max_sizes: String::new(),
    }
}

fn av_str(text: &str) -> ArmaValue {
    ArmaValue::String(text.to_string())
}

fn test_key() -> Vec<u8> {
    format!(
        "{}-{}-{}-{}",
        uuid::Uuid::new_v4(),
        uuid::Uuid::new_v4(),
        uuid::Uuid::new_v4(),
        uuid::Uuid::new_v4()
    )
    .into_bytes()
}

#[test]
fn test_encrypt_and_decrypt_message() {
    let mut message = Message::new(Type::Connect);

    let server_init = test_init();
    let expected = server_init.clone();

    let server_id = String::from("esm_testing");
    message.server_id = Some(server_id.as_bytes().to_vec());
    message.data = Data::Init(server_init);

    let server_key = test_key();

    let encrypted_bytes = message.as_bytes(&server_key);
    assert!(encrypted_bytes.is_ok());

    let decrypted_message = Message::from_bytes(encrypted_bytes.unwrap(), &server_key);
    assert!(decrypted_message.is_ok());

    let decrypted_message = decrypted_message.unwrap();
    assert_eq!(decrypted_message.message_type, Type::Connect);

    assert!(decrypted_message.server_id.is_some());
    assert_eq!(decrypted_message.server_id.unwrap(), b"esm_testing".to_vec());

    match decrypted_message.data {
        Data::Init(data) => {
            assert_eq!(data.server_name, expected.server_name);
            assert_eq!(data.price_per_object, expected.price_per_object);
            assert_eq!(data.territory_lifetime, expected.territory_lifetime);
            assert_eq!(data.territory_data, expected.territory_data);
        }
        _ => panic!("Invalid message data"),
    }
}

#[test]
fn encrypt_and_decrypt_message() {
    let mut message = Message::new(Type::Connect);
    message.server_id = Some(b"esm_testing".to_vec());
    message.data = Data::Init(test_init());
    let expected = message.clone();

    let server_key = test_key();
    let packet = message.as_bytes(&server_key).unwrap();
    let back = Message::from_bytes(packet, &server_key).unwrap();
    assert_eq!(back.message_type, expected.message_type);
    assert_eq!(back.data, expected.data);
    assert_eq!(back.server_id, expected.server_id);
}

#[test]
fn test_it_serializes_with_server_id() {
    let mut message = Message::new(Type::Connect);
    message.server_id = Some("some_server_id".as_bytes().to_vec());

    let serialized_message = render_json(&message_to_json(&message));
    assert_eq!(
        serialized_message,
        format!(
            "{{\"id\":\"{}\",\"type\":\"connect\",\"server_id\":[115,111,109,101,95,115,101,114,118,101,114,95,105,100]}}",
            message.id
        )
    );
}

#[test]
fn test_it_serializes_without_server_id() {
    let message = Message::new(Type::Connect);

    let serialized_message = render_json(&message_to_json(&message));
    assert_eq!(
        serialized_message,
        format!("{{\"id\":\"{}\",\"type\":\"connect\"}}", message.id)
    );
}

#[test]
fn test_data_is_empty() {
    let result = data_is_empty(&Data::Empty);
    assert!(result);

    let result = data_is_empty(&Data::Init(test_init()));
    assert!(!result);
}

#[test]
fn test_metadata_is_empty() {
    let result = metadata_is_empty(&Metadata::Empty);
    assert!(result);
}

#[test]
fn lib_test_metadata_is_empty() {
    let result = metadata_is_empty(&Metadata::Empty);
    assert!(result);
}

#[test]
fn test_errors_is_empty() {
    let result = errors_is_empty(&Vec::new());
    assert!(result);

    let error = Error::new(ErrorType::Code, "1".into());
    let result = errors_is_empty(&[error]);
    assert!(!result);
}

#[test]
fn lib_test_errors_is_empty() {
    let result = errors_is_empty(&Vec::new());
    assert!(result);

    let error = Error::new(ErrorType::Code, "1".into());
    let result = errors_is_empty(&[error]);
    assert!(!result);
}

#[test]
fn test_serializing_empty_message() {
    let message = Message::new(Type::Connect);
    let json = render_json(&message_to_json(&message));

    let expected = format!("{{\"id\":\"{}\",\"type\":\"connect\"}}", message.id);
    assert_eq!(json, expected);
}

#[test]
fn test_deserializing_empty_message() {
    let uuid = uuid::Uuid::new_v4();
    let input = format!("{{\"id\":\"{}\",\"type\":\"connect\"}}", uuid);
    let chars: Vec<char> = input.chars().collect();
    let value = esm_message::json::parse_json_text(&chars).unwrap();
    let message = message_from_json(&value).unwrap();

    assert_eq!(message.id, uuid.to_string());
    assert!(matches!(message.data, Data::Empty));
    assert!(matches!(message.metadata, Metadata::Empty));
    assert!(message.errors.is_empty());
}

// The payload and context strings here are written in the host grammar
// itself (quotes doubled inside a string), which is the one input shape the
// escape-normalizing scan is defined on; the decoded field values are
// unchanged.
#[test]
fn test_from_str() {
    let id = uuid::Uuid::new_v4();
    let mut expectation = Message::new(Type::Event);
    expectation.id = id.to_string();
    expectation.data = Data::Test(esm_message::data::Test {
        foo: "tes\"ting".into(),
    });
    expectation.metadata = Metadata::Test(esm_message::metadata::Test {
        foo: "\"testing2\" - \"\"nested\"\"".into(),
    });
    expectation.add_error(ErrorType::Message, "This is a message");
    expectation.add_error(ErrorType::Code, "CODING");

    let result = Message::from_arma(
        id.to_string(),
        "event".into(),
        "[[\"type\",\"test\"],[\"content\",[[\"foo\",\"tes\"\"ting\"]]]]".into(),
        "[[\"type\",\"test\"],[\"content\",[[\"foo\",\"\"\"testing2\"\" - \"\"\"\"nested\"\"\"\"\"]]]]".into(),
        "[[[\"type\",\"message\"],[\"content\",\"This is a message\"]],[[\"type\",\"code\"],[\"content\",\"CODING\"]]]".into(),
    )
    .unwrap();

    assert_eq!(result.id, expectation.id);
    assert_eq!(result.data, expectation.data);
    assert_eq!(result.metadata, expectation.metadata);
    assert_eq!(result.errors, expectation.errors);
}

#[test]
fn it_converts_to_data_struct() {
    let input = "[[\"type\",\"test\"],[\"content\",[[\"foo\",\"bar\"]]]]";
    let result = Data::from_arma(input).unwrap();
    assert_eq!(
        result,
        Data::Test(esm_message::data::Test {
            foo: "bar".to_string()
        })
    );
}

#[test]
fn it_handles_escaped_strings() {
    let input = "[[\"type\",\"sqf_result\"],[\"content\",[[\"result\",\"[[\"\"key_1\"\",\"\"value_1\"\"],[\"\"key_2\"\",true],[\"\"key_3\"\",[[\"\"key_4\"\",false],[\"\"key_5\"\",[[\"\"key_6\"\",6],[\"\"key_7\"\",<null>]]]]]]\"]]]]";

    let result = Data::from_arma(input);

    assert_eq!(
        result.unwrap(),
        Data::SqfResult(SqfResult {
            result: Some("[[\"key_1\",\"value_1\"],[\"key_2\",true],[\"key_3\",[[\"key_4\",false],[\"key_5\",[[\"key_6\",6],[\"key_7\",<null>]]]]]]".to_string())
        })
    );
}

#[test]
fn test_unknown_tag_is_shape_error() {
    let input = "[[\"type\",\"not_a_real_type\"],[\"content\",[[\"foo\",\"bar\"]]]]";
    let result = decode_payload(input);
    assert!(matches!(result, Err(DecodeError::Shape)));
}

#[test]
fn test_tamper_detection() {
    let mut message = Message::new(Type::Connect);
    message.server_id = Some(b"esm_testing".to_vec());
    message.data = Data::Init(test_init());
    let key = test_key();
    let packet = message.as_bytes(&key).unwrap();

    // flip every single bit of the nonce and ciphertext regions in turn
    let body_start = 1 + b"esm_testing".len() + 1;
    for byte_index in body_start..packet.len() {
        for bit in 0..8 {
            let mut tampered = packet.clone();
            tampered[byte_index] ^= 1u8 << bit;
            let result = Message::from_bytes(tampered, &key);
            assert!(matches!(result, Err(DecodeError::Crypto)));
        }
    }
}

#[test]
fn test_wrong_key_rejection() {
    let mut message = Message::new(Type::Connect);
    message.server_id = Some(b"esm_testing".to_vec());
    let key = test_key();
    let other_key = test_key();
    let packet = message.as_bytes(&key).unwrap();
    let result = Message::from_bytes(packet, &other_key);
    assert!(matches!(result, Err(DecodeError::Crypto)));
}

#[test]
fn test_missing_server_id_is_routing_error() {
    let message = Message::new(Type::Connect);
    let key = test_key();
    assert!(matches!(
        message.as_bytes(&key),
        Err(DecodeError::Routing)
    ));
}

#[test]
fn test_truncated_packet_is_structure_error() {
    assert!(matches!(
        Message::from_bytes(vec![5, 1, 2], &test_key()),
        Err(DecodeError::StructureParse)
    ));
    assert!(matches!(
        Message::from_bytes(Vec::new(), &test_key()),
        Err(DecodeError::StructureParse)
    ));
}

#[test]
fn test_decimal_precision_round_trip() {
    let mut message = Message::new(Type::Connect);
    message.server_id = Some(b"server".to_vec());
    let mut init = test_init();
    init.price_per_object = "123456789012345".into();
    message.data = Data::Init(init);
    let key = test_key();
    let packet = message.as_bytes(&key).unwrap();
    let back = Message::from_bytes(packet, &key).unwrap();
    match back.data {
        Data::Init(init) => assert_eq!(init.price_per_object, "123456789012345"),
        _ => panic!("wrong payload"),
    }
}

#[test]
fn test_full_round_trip_with_all_slots() {
    let mut message = Message::new(Type::Query);
    message.server_id = Some(b"peer".to_vec());
    let mut arguments = StringMap::new();
    arguments.insert("uid".into(), "7".into());
    arguments.insert("territory_id".into(), "abc".into());
    message.data = Data::Query(Query {
        arguments,
        name: "territory".into(),
    });
    message.metadata = Metadata::Command(Command {
        player: Player {
            discord_id: Some("1".into()),
            discord_mention: None,
            discord_name: Some("name".into()),
            steam_uid: "765".into(),
        },
        target: None,
    });
    message.add_error(ErrorType::Message, "first");
    message.add_error(ErrorType::Code, "second");
    let expected = message.clone();

    let key = test_key();
    let packet = message.as_bytes(&key).unwrap();
    let back = Message::from_bytes(packet, &key).unwrap();
    assert_eq!(back.id, expected.id);
    assert_eq!(back.message_type, expected.message_type);
    assert_eq!(back.server_id, expected.server_id);
    assert_eq!(back.data, expected.data);
    assert_eq!(back.metadata, expected.metadata);
    assert_eq!(back.errors, expected.errors);
    assert_eq!(back.resource_id, None);
}

#[test]
fn test_escape_normalization_output() {
    let normalized = replace_arma_escape_characters("[\"a\",\"b\"\"c\"\"d\"]");
    assert_eq!(normalized, "[\"a\",\"b\\\"c\\\"d\"]");

    // an even interior run of four quotes stands for two literal quotes
    let normalized = replace_arma_escape_characters("[\"a\"\"\"\"b\"]");
    assert_eq!(normalized, "[\"a\\\"\\\"b\"]");
}

#[test]
fn test_error_tags_on_the_wire() {
    let mut message = Message::new(Type::Error);
    message.add_error(ErrorType::Code, "1");
    message.add_error(ErrorType::Message, "two");
    let text = render_json(&message_to_json(&message));
    assert!(text.contains("\"type\":\"Code\""));
    assert!(text.contains("\"type\":\"Message\""));

    // both spellings are read back
    for tag in ["Code", "code"] {
        let input = format!(
            "{{\"id\":\"{}\",\"type\":\"error\",\"errors\":[{{\"type\":\"{}\",\"content\":\"1\"}}]}}",
            message.id, tag
        );
        let chars: Vec<char> = input.chars().collect();
        let value = esm_message::json::parse_json_text(&chars).unwrap();
        let back = message_from_json(&value).unwrap();
        assert_eq!(back.errors, vec![Error::new(ErrorType::Code, "1".into())]);
    }
}

#[test]
fn test_from_arma_accepts_all_id_shapes() {
    let canonical = "67e55044-10b1-426f-9247-bb680e5fe0c8";
    let shapes = [
        "67e55044-10b1-426f-9247-bb680e5fe0c8".to_string(),
        "67E55044-10B1-426F-9247-BB680E5FE0C8".to_string(),
        "67e5504410b1426f9247bb680e5fe0c8".to_string(),
        "{67e55044-10b1-426f-9247-bb680e5fe0c8}".to_string(),
        "urn:uuid:67e55044-10b1-426f-9247-bb680e5fe0c8".to_string(),
    ];
    for shape in shapes {
        let result = Message::from_arma(
            shape,
            "event".into(),
            "[[\"type\",\"test\"],[\"content\",[[\"foo\",\"x\"]]]]".into(),
            "[[\"type\",\"empty\"],[\"content\",[]]]".into(),
            "[]".into(),
        )
        .unwrap();
        assert_eq!(result.id, canonical);
    }
    assert!(Message::from_arma(
        "not-an-id".into(),
        "event".into(),
        "[[\"type\",\"empty\"],[\"content\",[]]]".into(),
        "[[\"type\",\"empty\"],[\"content\",[]]]".into(),
        "[]".into(),
    )
    .is_err());
}

#[test]
fn test_payload_round_trip_variants() {
    let samples = vec![
        Data::Empty,
        Data::Test(esm_message::data::Test { foo: "x".into() }),
        Data::Sqf(Sqf {
            execute_on: "server".into(),
            code: "hint \"hi\";\nexit".into(),
        }),
        Data::SqfResult(SqfResult { result: None }),
        Data::QueryResult(QueryResult {
            results: vec!["a".into(), "b".into()],
        }),
        Data::SendToChannel(SendToChannel {
            id: "chan".into(),
            content: "msg".into(),
        }),
    ];
    for d in samples {
        let encoded = esm_message::codec::encode_payload(&d);
        let back = esm_message::codec::data_from_value(&encoded).unwrap();
        assert_eq!(back, d);
    }
}

#[test]
fn lib_test_from_str() {
    let id = uuid::Uuid::new_v4();

    let mut expectation = Message::new(Type::Event);
    expectation.id = id.to_string();
    expectation.data = Data::Test(esm_message::data::Test {
        foo: "testing".into(),
    });
    expectation.metadata = Metadata::Test(esm_message::metadata::Test {
        foo: "testing2".into(),
    });
    expectation.add_error(ErrorType::Message, "This is a message");
    expectation.add_error(ErrorType::Message, "this is another message");

    let data = ArmaValue::Array(vec![
        av_str("test"),
        ArmaValue::Array(vec![
            ArmaValue::Array(vec![av_str("foo")]),
            ArmaValue::Array(vec![av_str("testing")]),
        ]),
    ]);
    let metadata = ArmaValue::Array(vec![
        av_str("test"),
        ArmaValue::Array(vec![
            ArmaValue::Array(vec![av_str("foo")]),
            ArmaValue::Array(vec![av_str("testing2")]),
        ]),
    ]);
    let errors = ArmaValue::Array(vec![av_str("This is a message"), av_str("this is another message")]);

    let result = Message::from_arma_values(
        id.to_string(),
        "event".into(),
        &data,
        &metadata,
        &errors,
    )
    .unwrap();

    assert_eq!(result.id, expectation.id);
    assert_eq!(result.data, expectation.data);
    assert_eq!(result.metadata, expectation.metadata);
    assert_eq!(result.errors, expectation.errors);
}

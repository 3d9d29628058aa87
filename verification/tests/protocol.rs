use kr::blob::Base64Buffer;
use kr::error::Error;
use kr::json::Json;
use kr::protocol::{
    request_from_json, request_to_json, response_from_json, response_to_json,
    AuthenticateRequest, AuthenticateResponse, ClientResult, IdData, IdRequest, IdResponse,
    RegisterRequest, RegisterResponse, Request, RequestBody, Response, ResponseBody, UserData,
    WireMessage, PROTOCOL_VERSION,
};

fn blob(bytes: &[u8]) -> Base64Buffer {
    Base64Buffer(bytes.to_vec())
}

// ---- binary blob codec ----

#[test]
fn blob_encode_known_values() {
    assert_eq!(blob(b"").to_string(), "");
    assert_eq!(blob(b"f").to_string(), "Zg==");
    assert_eq!(blob(b"fo").to_string(), "Zm8=");
    assert_eq!(blob(b"foo").to_string(), "Zm9v");
    assert_eq!(blob(b"foob").to_string(), "Zm9vYg==");
    assert_eq!(blob(b"hello").to_string(), "aGVsbG8=");
}

#[test]
fn blob_encode_matches_reference_encoder() {
    let samples: Vec<Vec<u8>> = vec![
        vec![],
        vec![0],
        vec![255, 0, 128],
        (0u8..=255).collect(),
        vec![1, 2, 3, 4, 5, 6, 7],
    ];
    for s in samples {
        assert_eq!(Base64Buffer(s.clone()).to_string(), base64::encode(&s));
    }
}

#[test]
fn blob_round_trip() {
    let samples: Vec<Vec<u8>> = vec![
        vec![],
        vec![0],
        vec![1, 2],
        vec![1, 2, 3],
        (0u8..=255).collect(),
    ];
    for s in samples {
        let text = Base64Buffer(s.clone()).to_string();
        let back = Base64Buffer::from_b64(&text).unwrap();
        assert_eq!(back.0, s);
    }
}

#[test]
fn blob_decode_rejects_malformed_text() {
    assert!(matches!(Base64Buffer::from_b64("!!!!"), Err(Error::FormatError)));
    assert!(matches!(Base64Buffer::from_b64("ab!c"), Err(Error::FormatError)));
    assert!(matches!(Base64Buffer::from_b64("a==="), Err(Error::FormatError)));
}

// ---- key handle normalization ----

#[test]
fn get_key_handles_prefers_the_list() {
    let a = blob(b"A");
    let b = blob(b"B");
    let req = AuthenticateRequest::new(
        blob(b"chal"),
        "example.com".to_string(),
        None,
        Some(blob(b"single")),
        Some(vec![a.clone(), b.clone()]),
    );
    let khs = req.get_key_handles();
    assert_eq!(khs.len(), 2);
    assert_eq!(*khs[0], a);
    assert_eq!(*khs[1], b);
}

#[test]
fn get_key_handles_list_only() {
    let a = blob(b"A");
    let b = blob(b"B");
    let req = AuthenticateRequest::new(
        blob(b"chal"),
        "example.com".to_string(),
        None,
        None,
        Some(vec![a.clone(), b.clone()]),
    );
    let khs = req.get_key_handles();
    assert_eq!(khs.len(), 2);
    assert_eq!(*khs[0], a);
    assert_eq!(*khs[1], b);
}

#[test]
fn get_key_handles_single_only() {
    let a = blob(b"A");
    let req = AuthenticateRequest::new(
        blob(b"chal"),
        "example.com".to_string(),
        None,
        Some(a.clone()),
        None,
    );
    let khs = req.get_key_handles();
    assert_eq!(khs.len(), 1);
    assert_eq!(*khs[0], a);
}

#[test]
fn get_key_handles_neither() {
    let req =
        AuthenticateRequest::new(blob(b"chal"), "example.com".to_string(), None, None, None);
    assert_eq!(req.get_key_handles().len(), 0);
}

// ---- client result resolution ----

#[test]
fn client_result_contents_alone_succeed() {
    let cr = ClientResult::new(Some(7u64), None);
    assert_eq!(cr.into_result().unwrap(), 7u64);
}

#[test]
fn client_result_error_alone_fails() {
    let cr: ClientResult<u64> = ClientResult::new(None, Some("boom".to_string()));
    assert!(matches!(cr.into_result(), Err(Error::DeviceError(m)) if m == "boom"));
}

#[test]
fn client_result_error_wins_over_contents() {
    let cr = ClientResult::new(Some(7u64), Some("boom".to_string()));
    assert!(matches!(cr.into_result(), Err(Error::DeviceError(m)) if m == "boom"));
}

#[test]
fn client_result_neither_is_unexpected() {
    let cr: ClientResult<u64> = ClientResult::new(None, None);
    assert!(matches!(cr.into_result(), Err(Error::UnexpectedResponse)));
}

// ---- narrowing conversions ----

fn register_response() -> RegisterResponse {
    RegisterResponse {
        public_key: blob(b"pk"),
        key_handle: blob(b"kh"),
        attestation_certificate: blob(b"cert"),
        signature: blob(b"sig"),
        attestation_data: blob(b"att"),
    }
}

#[test]
fn narrowing_mismatched_variant_fails_even_on_success() {
    let body = ResponseBody::Register(ClientResult::new(Some(register_response()), None));
    assert!(matches!(
        AuthenticateResponse::try_from(body),
        Err(Error::UnexpectedResponse)
    ));
}

#[test]
fn narrowing_matching_variant_resolves() {
    let body = ResponseBody::Register(ClientResult::new(Some(register_response()), None));
    let out = RegisterResponse::try_from(body).unwrap();
    assert_eq!(out, register_response());
}

#[test]
fn narrowing_matching_variant_propagates_device_error() {
    let body: ResponseBody =
        ResponseBody::Id(ClientResult::new(None, Some("nope".to_string())));
    assert!(matches!(IdResponse::try_from(body), Err(Error::DeviceError(m)) if m == "nope"));
}

// ---- wire framing ----

#[test]
fn wire_unwrap_message() {
    match WireMessage::new(vec![0x00, 1, 2, 3]).unwrap() {
        WireMessage::SealedMessage(p) => assert_eq!(p, vec![1, 2, 3]),
        _ => panic!("wrong variant"),
    }
}

#[test]
fn wire_unwrap_public_key() {
    match WireMessage::new(vec![0x02, 9]).unwrap() {
        WireMessage::SealedPublicKey(p) => assert_eq!(p, vec![9]),
        _ => panic!("wrong variant"),
    }
}

#[test]
fn wire_unwrap_rejects_reserved_tag_and_empty_input() {
    assert!(matches!(WireMessage::new(vec![0x01]), Err(Error::InvalidWireProtocol)));
    assert!(matches!(WireMessage::new(vec![]), Err(Error::InvalidWireProtocol)));
    assert!(matches!(WireMessage::new(vec![0x03, 1]), Err(Error::InvalidWireProtocol)));
}

#[test]
fn wire_wrap_prepends_tag() {
    assert_eq!(
        WireMessage::SealedMessage(vec![1, 2, 3]).into_wire(),
        vec![0x00, 1, 2, 3]
    );
    assert_eq!(WireMessage::SealedPublicKey(vec![9]).into_wire(), vec![0x02, 9]);
}

#[test]
fn wire_wrap_then_unwrap_is_identity() {
    let payloads: Vec<Vec<u8>> = vec![vec![], vec![0], vec![1, 2, 3, 0, 255]];
    for p in payloads {
        match WireMessage::new(WireMessage::SealedMessage(p.clone()).into_wire()).unwrap() {
            WireMessage::SealedMessage(q) => assert_eq!(q, p),
            _ => panic!("wrong variant"),
        }
        match WireMessage::new(WireMessage::SealedPublicKey(p.clone()).into_wire()).unwrap() {
            WireMessage::SealedPublicKey(q) => assert_eq!(q, p),
            _ => panic!("wrong variant"),
        }
    }
}

// ---- request construction ----

#[test]
fn new_request_fills_the_envelope() {
    let req = Request::new(RequestBody::Id(IdRequest {}));
    assert_eq!(req.send_ack, false);
    assert_eq!(req.version, PROTOCOL_VERSION);
    assert_eq!(req.version, "3.0.0");
    assert!(matches!(req.body, RequestBody::Id(_)));
    let id_bytes = Base64Buffer::from_b64(&req.id).unwrap();
    assert_eq!(id_bytes.0.len(), 32);
}

#[test]
fn new_request_ids_differ() {
    let a = Request::new(RequestBody::Id(IdRequest {}));
    let b = Request::new(RequestBody::Id(IdRequest {}));
    assert_ne!(a.id, b.id);
}

// ---- request envelope codec ----

fn id_request() -> Request {
    Request {
        id: "cmVxdWVzdA==".to_string(),
        unix_seconds: 1_600_000_000,
        send_ack: false,
        version: "3.0.0".to_string(),
        body: RequestBody::Id(IdRequest {}),
    }
}

fn register_request() -> Request {
    Request {
        id: "aWQtMg==".to_string(),
        unix_seconds: -5,
        send_ack: true,
        version: "3.0.0".to_string(),
        body: RequestBody::Register(RegisterRequest {
            challenge: blob(b"challenge-bytes"),
            rp_id: "example.com".to_string(),
            rp_name: Some("Example".to_string()),
            user: Some(UserData {
                id: blob(b"user-id"),
                display_name: "Alex".to_string(),
            }),
            is_webauthn: true,
        }),
    }
}

fn authenticate_request() -> Request {
    Request {
        id: "aWQtMw==".to_string(),
        unix_seconds: 42,
        send_ack: false,
        version: "3.0.0".to_string(),
        body: RequestBody::Authenticate(AuthenticateRequest::new(
            blob(b"chal"),
            "example.org".to_string(),
            Some(vec![
                ("appid".to_string(), Json::Bool(true)),
                ("budget".to_string(), Json::Int(-12)),
                (
                    "nested".to_string(),
                    Json::Arr(vec![Json::Null, Json::Str("x".to_string())]),
                ),
            ]),
            Some(blob(b"kh-one")),
            Some(vec![blob(b"kh-a"), blob(b"kh-b")]),
        )),
    }
}

#[test]
fn request_round_trip_id() {
    let j = request_to_json(id_request());
    assert_eq!(request_from_json(&j).unwrap(), id_request());
}

#[test]
fn request_round_trip_register() {
    let j = request_to_json(register_request());
    assert_eq!(request_from_json(&j).unwrap(), register_request());
}

#[test]
fn request_round_trip_authenticate() {
    let j = request_to_json(authenticate_request());
    assert_eq!(request_from_json(&j).unwrap(), authenticate_request());
}

#[test]
fn request_round_trip_register_without_options() {
    let req = Request {
        id: "aWQ=".to_string(),
        unix_seconds: 0,
        send_ack: false,
        version: "3.0.0".to_string(),
        body: RequestBody::Register(RegisterRequest {
            challenge: blob(b""),
            rp_id: "r".to_string(),
            rp_name: None,
            user: None,
            is_webauthn: false,
        }),
    };
    let j = request_to_json(req);
    let back = request_from_json(&j).unwrap();
    assert!(matches!(back.body, RequestBody::Register(ref rr) if rr.rp_name.is_none() && rr.user.is_none()));
}

fn envelope_fields() -> Vec<(String, Json)> {
    vec![
        ("request_id".to_string(), Json::Str("abc".to_string())),
        ("unix_seconds".to_string(), Json::Int(5)),
        ("a".to_string(), Json::Bool(false)),
        ("v".to_string(), Json::Str("3.0.0".to_string())),
    ]
}

#[test]
fn request_with_two_discriminators_is_a_format_error() {
    let mut ps = envelope_fields();
    ps.push(("me_request".to_string(), Json::Obj(vec![])));
    ps.push(("u2f_register_request".to_string(), Json::Obj(vec![])));
    assert!(matches!(request_from_json(&Json::Obj(ps)), Err(Error::FormatError)));
}

#[test]
fn request_with_no_discriminator_is_a_format_error() {
    let ps = envelope_fields();
    assert!(matches!(request_from_json(&Json::Obj(ps)), Err(Error::FormatError)));
}

#[test]
fn request_that_is_not_an_object_is_a_format_error() {
    assert!(matches!(request_from_json(&Json::Int(3)), Err(Error::FormatError)));
}

#[test]
fn request_unknown_fields_are_tolerated() {
    let mut ps = envelope_fields();
    ps.push(("future_field".to_string(), Json::Arr(vec![Json::Int(1)])));
    ps.push(("me_request".to_string(), Json::Obj(vec![])));
    let req = request_from_json(&Json::Obj(ps)).unwrap();
    assert_eq!(req.id, "abc");
    assert_eq!(req.unix_seconds, 5);
    assert!(matches!(req.body, RequestBody::Id(_)));
}

#[test]
fn request_with_malformed_blob_is_a_format_error() {
    let mut ps = envelope_fields();
    ps.push((
        "u2f_authenticate_request".to_string(),
        Json::Obj(vec![
            ("challenge".to_string(), Json::Str("%%%".to_string())),
            ("app_id".to_string(), Json::Str("x".to_string())),
        ]),
    ));
    assert!(matches!(request_from_json(&Json::Obj(ps)), Err(Error::FormatError)));
}

// ---- response envelope codec ----

fn auth_response() -> AuthenticateResponse {
    AuthenticateResponse {
        public_key: blob(b"pk"),
        counter: 4_294_967_295,
        signature: blob(b"sig"),
        key_handle: blob(b"kh"),
        user_handle: Some(blob(b"uh")),
        authenticator_data: blob(b"ad"),
    }
}

fn response_with(body: ResponseBody) -> Response {
    Response {
        request_id: "abc".to_string(),
        aws_push_id: Some("arn:aws".to_string()),
        device_token: None,
        version: "3.0.0".to_string(),
        body,
    }
}

#[test]
fn response_round_trip_authenticate_success() {
    let resp =
        response_with(ResponseBody::Authenticate(ClientResult::new(Some(auth_response()), None)));
    let j = response_to_json(resp);
    let back = response_from_json(&j).unwrap();
    assert_eq!(back.request_id, "abc");
    assert_eq!(back.aws_push_id.as_deref(), Some("arn:aws"));
    assert_eq!(back.device_token, None);
    match back.body {
        ResponseBody::Authenticate(cr) => {
            assert_eq!(cr.into_result().unwrap(), auth_response());
        },
        _ => panic!("wrong variant"),
    }
}

#[test]
fn response_round_trip_register_error() {
    let resp = response_with(ResponseBody::Register(ClientResult::new(
        None,
        Some("device says no".to_string()),
    )));
    let j = response_to_json(resp);
    let back = response_from_json(&j).unwrap();
    match back.body {
        ResponseBody::Register(cr) => {
            assert!(matches!(
                cr.into_result(),
                Err(Error::DeviceError(m)) if m == "device says no"
            ));
        },
        _ => panic!("wrong variant"),
    }
}

#[test]
fn response_round_trip_id_success() {
    let resp = response_with(ResponseBody::Id(ClientResult::new(
        Some(IdResponse {
            data: IdData {
                email: "a@example.com".to_string(),
                device_identifier: blob(b"dev"),
            },
        }),
        None,
    )));
    let j = response_to_json(resp);
    let back = response_from_json(&j).unwrap();
    match back.body {
        ResponseBody::Id(cr) => {
            let id = cr.into_result().unwrap();
            assert_eq!(id.data.email, "a@example.com");
            assert_eq!(id.data.device_identifier, blob(b"dev"));
        },
        _ => panic!("wrong variant"),
    }
}

#[test]
fn response_with_two_discriminators_is_a_format_error() {
    let ps = vec![
        ("request_id".to_string(), Json::Str("abc".to_string())),
        ("v".to_string(), Json::Str("3.0.0".to_string())),
        ("me_response".to_string(), Json::Obj(vec![("error".to_string(), Json::Null)])),
        (
            "u2f_register_response".to_string(),
            Json::Obj(vec![("error".to_string(), Json::Null)]),
        ),
    ];
    assert!(matches!(response_from_json(&Json::Obj(ps)), Err(Error::FormatError)));
}

#[test]
fn response_with_no_discriminator_is_a_format_error() {
    let ps = vec![
        ("request_id".to_string(), Json::Str("abc".to_string())),
        ("v".to_string(), Json::Str("3.0.0".to_string())),
    ];
    assert!(matches!(response_from_json(&Json::Obj(ps)), Err(Error::FormatError)));
}

#[test]
fn response_counter_out_of_range_is_a_format_error() {
    let ps = vec![
        ("request_id".to_string(), Json::Str("abc".to_string())),
        ("v".to_string(), Json::Str("3.0.0".to_string())),
        (
            "u2f_authenticate_response".to_string(),
            Json::Obj(vec![
                ("public_key".to_string(), Json::Str("cGs=".to_string())),
                ("counter".to_string(), Json::Int(-1)),
                ("signature".to_string(), Json::Str("c2ln".to_string())),
                ("key_handle".to_string(), Json::Str("a2g=".to_string())),
                ("authenticator_data".to_string(), Json::Str("YWQ=".to_string())),
            ]),
        ),
    ];
    assert!(matches!(response_from_json(&Json::Obj(ps)), Err(Error::FormatError)));
}

#[test]
fn response_error_and_contents_both_present_resolve_to_the_error() {
    let resp = response_with(ResponseBody::Authenticate(ClientResult::new(
        Some(auth_response()),
        Some("boom".to_string()),
    )));
    let j = response_to_json(resp);
    let back = response_from_json(&j).unwrap();
    match back.body {
        ResponseBody::Authenticate(cr) => {
            assert!(matches!(cr.into_result(), Err(Error::DeviceError(m)) if m == "boom"));
        },
        _ => panic!("wrong variant"),
    }
}

// ---- transport text ----

use kr::protocol::serialize_request;
use kr::text::json_to_string;

#[test]
fn json_text_scalars() {
    assert_eq!(json_to_string(&Json::Null), "null");
    assert_eq!(json_to_string(&Json::Bool(true)), "true");
    assert_eq!(json_to_string(&Json::Bool(false)), "false");
    assert_eq!(json_to_string(&Json::Int(0)), "0");
    assert_eq!(json_to_string(&Json::Int(1205)), "1205");
    assert_eq!(json_to_string(&Json::Int(-7)), "-7");
    assert_eq!(json_to_string(&Json::Int(i64::MIN)), "-9223372036854775808");
    assert_eq!(json_to_string(&Json::Int(i64::MAX)), "9223372036854775807");
}

#[test]
fn json_text_strings_escape() {
    assert_eq!(json_to_string(&Json::Str("plain".to_string())), "\"plain\"");
    assert_eq!(
        json_to_string(&Json::Str("a\"b\\c".to_string())),
        "\"a\\\"b\\\\c\""
    );
    assert_eq!(
        json_to_string(&Json::Str("\n\t\u{1f}".to_string())),
        "\"\\u000a\\u0009\\u001f\""
    );
    assert_eq!(json_to_string(&Json::Str("déjà".to_string())), "\"déjà\"");
}

#[test]
fn json_text_containers() {
    assert_eq!(json_to_string(&Json::Arr(vec![])), "[]");
    assert_eq!(
        json_to_string(&Json::Arr(vec![Json::Int(1), Json::Null, Json::Bool(false)])),
        "[1,null,false]"
    );
    assert_eq!(json_to_string(&Json::Obj(vec![])), "{}");
    assert_eq!(
        json_to_string(&Json::Obj(vec![
            ("a".to_string(), Json::Int(1)),
            ("b".to_string(), Json::Arr(vec![Json::Str("x".to_string())])),
        ])),
        "{\"a\":1,\"b\":[\"x\"]}"
    );
}

#[test]
fn serialize_request_exact_wire_text() {
    let text = serialize_request(id_request());
    assert_eq!(
        text,
        "{\"request_id\":\"cmVxdWVzdA==\",\"unix_seconds\":1600000000,\"a\":false,\"v\":\"3.0.0\",\"me_request\":{}}"
    );
}

#[test]
fn serialize_request_register_wire_text() {
    let req = Request {
        id: "aWQ=".to_string(),
        unix_seconds: 7,
        send_ack: true,
        version: "3.0.0".to_string(),
        body: RequestBody::Register(RegisterRequest {
            challenge: blob(b"ch"),
            rp_id: "example.com".to_string(),
            rp_name: None,
            user: None,
            is_webauthn: false,
        }),
    };
    assert_eq!(
        serialize_request(req),
        "{\"request_id\":\"aWQ=\",\"unix_seconds\":7,\"a\":true,\"v\":\"3.0.0\",\
         \"u2f_register_request\":{\"challenge\":\"Y2g=\",\"app_id\":\"example.com\",\
         \"rp_name\":null,\"user\":null,\"webauthn\":false}}"
    );
}

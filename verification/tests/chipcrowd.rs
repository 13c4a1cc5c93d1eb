use bebop::chipcrowd::{decide_route, find_bytes, parse_request_head, route_request, inference_status, JsonBody, ModelRegistry, RouteDecision};

#[test]
fn default_registry_has_initial_models() {
    let registry = ModelRegistry::default_registry();
    assert!(registry.contains("bb-mobilenetv3"));
    assert!(registry.contains("bb-qwen3-0.6b"));
}

#[test]
fn default_registry_lists_five_models_and_only_them() {
    let registry = ModelRegistry::default_registry();
    let ids: Vec<&str> = registry.models().iter().map(|m| m.id.as_str()).collect();
    assert_eq!(ids, vec!["bb-lenet", "bb-mobilenetv3", "bb-resnet18", "bb-yolo26n", "bb-qwen3-0.6b"]);
    assert!(!registry.contains("bb-unknown"));
    assert!(registry.models()[4].streaming);
    assert_eq!(registry.models()[3].task, "object-detection");
    assert_eq!(registry.models()[0].output["max_k"], 10);
}

#[test]
fn head_parsing_reads_method_path_length_and_key() {
    let head = parse_request_head(
        b"POST /v1/chat/completions HTTP/1.1\r\nHost: x\r\ncontent-LENGTH:  12 \r\nAuthorization: Bearer k\r\n\r\n",
    );
    assert_eq!(head.method, b"POST".to_vec());
    assert_eq!(head.path, b"/v1/chat/completions".to_vec());
    assert_eq!(head.content_length, 12);
    assert_eq!(head.authorization, b"Bearer k".to_vec());
    let head = parse_request_head(b"GET\r\nContent-Length: lots\r\n\r\n");
    assert_eq!(head.path, Vec::<u8>::new());
    assert_eq!(head.content_length, 0);
}

#[test]
fn header_end_is_found() {
    assert_eq!(find_bytes(b"GET / HTTP/1.1\r\n\r\nbody", b"\r\n\r\n"), Some(14));
    assert_eq!(find_bytes(b"partial\r\n", b"\r\n\r\n"), None);
}

fn body(model: Option<&str>, stream: Option<bool>) -> Option<JsonBody> {
    Some(JsonBody { model: model.map(str::to_string), stream })
}

#[test]
fn routes_are_decided_in_order() {
    let r = ModelRegistry::default_registry();
    let key = b"Bearer bbk-dev";
    assert!(matches!(decide_route(&r, "bbk-dev", b"GET", b"/healthz", b"", None), RouteDecision::Health));
    assert!(matches!(decide_route(&r, "bbk-dev", b"GET", b"/v1/models", b"Bearer nope", None), RouteDecision::InvalidApiKey));
    assert!(matches!(decide_route(&r, "bbk-dev", b"GET", b"/v1/models", key, None), RouteDecision::ListModels));
    assert!(matches!(decide_route(&r, "bbk-dev", b"POST", b"/v1/vision/classify", key, None), RouteDecision::InvalidJson));
    assert!(matches!(decide_route(&r, "bbk-dev", b"POST", b"/v1/vision/classify", key, body(None, None)), RouteDecision::ModelRequired));
    match decide_route(&r, "bbk-dev", b"POST", b"/v1/vision/classify", key, body(Some("gpt"), None)) {
        RouteDecision::ModelNotRegistered { model } => assert_eq!(model, "gpt"),
        _ => panic!("unregistered model accepted"),
    }
    match decide_route(&r, "bbk-dev", b"POST", b"/v1/chat/completions", key, body(Some("bb-qwen3-0.6b"), None)) {
        RouteDecision::Chat { model, stream } => {
            assert_eq!(model, "bb-qwen3-0.6b");
            assert!(!stream);
        }
        _ => panic!("chat not routed"),
    }
    assert!(matches!(
        decide_route(&r, "bbk-dev", b"POST", b"/v1/chat/completions", key, body(Some("bb-qwen3-0.6b"), Some(true))),
        RouteDecision::Chat { stream: true, .. }
    ));
    assert!(matches!(
        decide_route(&r, "bbk-dev", b"PUT", b"/v1/vision/classify", key, body(Some("bb-lenet"), None)),
        RouteDecision::RouteNotFound
    ));
    assert_eq!(RouteDecision::InvalidApiKey.status(), Some(401));
    assert_eq!(RouteDecision::RouteNotFound.status(), Some(404));
    assert_eq!(RouteDecision::Classify { model: "bb-lenet".to_string() }.status(), None);
}

#[test]
fn route_request_reads_the_json_body() {
    let r = ModelRegistry::default_registry();
    let head = parse_request_head(b"POST /v1/vision/classify HTTP/1.1\r\nAuthorization: Bearer bbk-dev\r\n\r\n");
    let (d, value) = route_request(&r, "bbk-dev", &head, b"{\"model\":\"bb-lenet\",\"input_base64\":\"AAAA\"}");
    assert!(matches!(d, RouteDecision::Classify { .. }));
    assert_eq!(value.unwrap()["input_base64"], "AAAA");
    let (d, value) = route_request(&r, "bbk-dev", &head, b"not json");
    assert!(matches!(d, RouteDecision::InvalidJson));
    assert!(value.is_none());
}

#[test]
fn a_failed_transport_is_a_bad_gateway() {
    assert_eq!(inference_status(true), 200);
    assert_eq!(inference_status(false), 502);
}

#[test]
fn unicode_whitespace_separates_and_surrounds_request_words() {
    let head = parse_request_head(
        "\u{a0}GET\u{3000}/healthz\u{2003}HTTP/1.1\r\nAuthorization:\u{a0}Bearer k\u{2029}\r\n\r\n".as_bytes(),
    );
    assert_eq!(head.method, b"GET".to_vec());
    assert_eq!(head.path, b"/healthz".to_vec());
    assert_eq!(head.authorization, b"Bearer k".to_vec());
}

#[test]
fn only_a_string_model_member_of_an_object_body_names_a_model() {
    let r = ModelRegistry::default_registry();
    let head = parse_request_head(b"POST /v1/chat/completions HTTP/1.1\r\nAuthorization: Bearer bbk-dev\r\n\r\n");
    let (d, _) = route_request(&r, "bbk-dev", &head, b"{\"model\":7,\"stream\":true}");
    assert!(matches!(d, RouteDecision::ModelRequired));
    let (d, value) = route_request(&r, "bbk-dev", &head, b"[\"bb-qwen3-0.6b\"]");
    assert!(matches!(d, RouteDecision::ModelRequired));
    assert!(value.is_some());
    let (d, _) = route_request(&r, "bbk-dev", &head, b"{\"stream\":\"yes\",\"model\":\"bb-qwen3-0.6b\"}");
    assert!(matches!(d, RouteDecision::Chat { stream: false, .. }));
}

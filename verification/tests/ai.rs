use cachebox::ai::{
    fnv1a_128, normalize_prompt_input, prompt_cache_key, PromptCacheKeyInput, PromptMessage,
    FNV_OFFSET_BASIS, PROMPT_KEY_PREFIX,
};
use cachebox::json::{canonical_json, JsonObject, JsonValue};

fn text(value: &str) -> JsonValue {
    JsonValue::String(value.to_string())
}

fn number(value: &str) -> JsonValue {
    JsonValue::Number(value.to_string())
}

fn object(members: Vec<(&str, JsonValue)>) -> JsonValue {
    let mut object = JsonObject::new();
    for (name, value) in members {
        object.insert(name, value);
    }
    JsonValue::Object(object)
}

fn base_input() -> PromptCacheKeyInput {
    let mut input = PromptCacheKeyInput::new("openai", "gpt-example", "workspace-a");
    input.model_version = Some("2026-06-01".to_string());
    input.system_prompt = Some("Answer with citations.".to_string());
    input.messages = vec![
        PromptMessage::new("user", "Summarize the release notes."),
        PromptMessage::new("assistant", "Which product?").with_name("cachebot"),
        PromptMessage::new("user", "Cachebox."),
    ];
    input.tool_schema = Some(object(vec![
        ("type", text("object")),
        (
            "properties",
            object(vec![
                ("query", object(vec![("type", text("string"))])),
                ("limit", object(vec![("type", text("integer"))])),
            ]),
        ),
    ]));
    input.sampling_parameters.insert("temperature", number("0.2"));
    input.sampling_parameters.insert("top_p", number("0.95"));
    input.output_format = Some("json".to_string());
    input.retrieval_context_hash = Some("sha256:abc123".to_string());
    input
}

#[test]
fn prompt_keys_are_deterministic_for_equivalent_inputs() {
    let left = base_input();
    let mut right = base_input();
    right.tool_schema = Some(object(vec![
        (
            "properties",
            object(vec![
                ("limit", object(vec![("type", text("integer"))])),
                ("query", object(vec![("type", text("string"))])),
            ]),
        ),
        ("type", text("object")),
    ]));

    assert_eq!(prompt_cache_key(&left), prompt_cache_key(&right));
    assert_eq!(
        normalize_prompt_input(&left),
        normalize_prompt_input(&right)
    );
}

#[test]
fn prompt_keys_change_for_meaningful_input_changes() {
    let base_key = prompt_cache_key(&base_input());

    let mut changed_prompt = base_input();
    changed_prompt.messages[0].content = "Summarize the changelog.".to_string();
    assert_ne!(base_key, prompt_cache_key(&changed_prompt));

    let mut changed_model = base_input();
    changed_model.model = "other-model".to_string();
    assert_ne!(base_key, prompt_cache_key(&changed_model));

    let mut changed_tool = base_input();
    changed_tool.tool_schema = Some(object(vec![
        ("type", text("object")),
        ("required", JsonValue::Array(vec![text("query")])),
    ]));
    assert_ne!(base_key, prompt_cache_key(&changed_tool));

    let mut changed_sampling = base_input();
    changed_sampling
        .sampling_parameters
        .insert("temperature", number("0.8"));
    assert_ne!(base_key, prompt_cache_key(&changed_sampling));

    let mut changed_retrieval = base_input();
    changed_retrieval.retrieval_context_hash = Some("sha256:def456".to_string());
    assert_ne!(base_key, prompt_cache_key(&changed_retrieval));
}

#[test]
fn prompt_key_output_is_binary_safe_ascii() {
    let mut input = base_input();
    input.messages.push(PromptMessage::new(
        "user",
        "Unicode survives normalization: Zażółć gęślą jaźń 🚀",
    ));

    let key = prompt_cache_key(&input);

    assert!(key.starts_with(PROMPT_KEY_PREFIX.as_bytes()));
    assert_eq!(key.len(), PROMPT_KEY_PREFIX.len() + 32);
    assert!(key.iter().all(u8::is_ascii));
}

#[test]
fn message_order_affects_prompt_keys() {
    let base_key = prompt_cache_key(&base_input());
    let mut reordered = base_input();
    reordered.messages.swap(0, 1);

    assert_ne!(base_key, prompt_cache_key(&reordered));
}

#[test]
fn missing_optional_fields_are_distinct_from_empty_values() {
    let mut missing = PromptCacheKeyInput::new("openai", "gpt-example", "workspace-a");
    missing.messages.push(PromptMessage::new("user", "hello"));

    let mut empty = missing.clone();
    empty.system_prompt = Some(String::new());

    assert_ne!(prompt_cache_key(&missing), prompt_cache_key(&empty));
}

#[test]
fn prompt_key_has_the_expected_value() {
    let mut input = PromptCacheKeyInput::new("openai", "gpt-example", "workspace-a");
    input.messages.push(PromptMessage::new("user", "hello"));

    assert_eq!(normalize_prompt_input(&input).len(), 492);
    assert_eq!(
        prompt_cache_key(&input),
        b"ai:prompt:v1:c858b7cd9ed8f20ff1535c9cc538f905".to_vec()
    );
}

#[test]
fn fnv_hash_has_the_reference_values() {
    assert_eq!(fnv1a_128(b""), FNV_OFFSET_BASIS);
    assert_eq!(fnv1a_128(b"a"), 0xd228cb696f1a8caf78912b704e4a8964);
}

#[test]
fn normalization_starts_with_the_length_prefixed_version() {
    let input = PromptCacheKeyInput::new("p", "m", "n");
    let bytes = normalize_prompt_input(&input);
    let mut expected = Vec::new();
    expected.extend_from_slice(&7u64.to_be_bytes());
    expected.extend_from_slice(b"version");
    expected.extend_from_slice(&21u64.to_be_bytes());
    expected.extend_from_slice(b"cachebox.ai.prompt.v1");
    assert!(bytes.starts_with(&expected));
}

#[test]
fn canonical_json_orders_members_and_quotes_strings() {
    let value = object(vec![
        ("b", JsonValue::Array(vec![JsonValue::Null, JsonValue::Bool(true), number("1.5")])),
        ("a", text("say \"hi\"\n")),
    ]);
    assert_eq!(
        String::from_utf8(canonical_json(&value)).unwrap(),
        "{\"a\":\"say \\\"hi\\\"\\n\",\"b\":[null,true,1.5]}"
    );
}

#[test]
fn object_member_order_does_not_depend_on_insertion_order() {
    let first = object(vec![("x", number("1")), ("y", number("2")), ("w", number("3"))]);
    let second = object(vec![("w", number("3")), ("y", number("2")), ("x", number("1"))]);
    assert_eq!(canonical_json(&first), canonical_json(&second));
    assert_eq!(
        String::from_utf8(canonical_json(&first)).unwrap(),
        "{\"w\":3,\"x\":1,\"y\":2}"
    );
}

#[test]
fn inserting_an_existing_name_replaces_its_value() {
    let mut object = JsonObject::new();
    object.insert("k", number("1"));
    object.insert("k", number("2"));
    assert_eq!(object.len(), 1);
    assert_eq!(object.member(0).1, number("2"));
}

#[test]
fn cloned_values_render_the_same() {
    let value = base_input().tool_schema.unwrap();
    assert_eq!(canonical_json(&value.clone()), canonical_json(&value));
    let input = base_input();
    assert_eq!(
        normalize_prompt_input(&input.clone()),
        normalize_prompt_input(&input)
    );
}

#[test]
fn empty_containers_render_as_brackets() {
    assert_eq!(canonical_json(&JsonValue::Array(Vec::new())), b"[]".to_vec());
    assert_eq!(
        canonical_json(&JsonValue::Object(JsonObject::new())),
        b"{}".to_vec()
    );
}

#[test]
fn canonical_json_escapes_control_characters() {
    let value = text("a\\b\u{8}\t\u{c}\r\u{1}\u{1f}\u{7f}é");
    assert_eq!(
        String::from_utf8(canonical_json(&value)).unwrap(),
        "\"a\\\\b\\b\\t\\f\\r\\u0001\\u001f\u{7f}é\""
    );
}

use computeruse::action::validate_actions;
use computeruse::endpoint::{azure_responses_endpoint, choose_endpoint, ApiKind};
use computeruse::json::{parse_json, reread_json, Json};
use computeruse::policy::{
    find_model_text, invalid_decision, normalize_externally_tagged_actions, parse_decision,
    read_reply, request_body, strip_fence, ReplyError, SYSTEM_PROMPT,
};
use computeruse::{Action, Frame};
use std::collections::VecDeque;

/// JSON in one line.
fn show(json: &Json) -> String {
    match json {
        Json::Null => "null".to_string(),
        Json::Bool(yes) => yes.to_string(),
        Json::Number(text) => text.clone(),
        Json::Text(text) => format!("{text:?}"),
        Json::Items(items) => {
            format!("[{}]", items.iter().map(show).collect::<Vec<_>>().join(","))
        }
        Json::Fields(fields) => {
            let fields: Vec<_> = fields
                .iter()
                .map(|field| format!("{:?}:{}", field.name, show(&field.value)))
                .collect();
            format!("{{{}}}", fields.join(","))
        }
    }
}

#[test]
fn accepts_fenced_policy_json() {
    let decision =
        parse_decision("```json\n{\"actions\":[],\"completed\":true,\"progress\":1.0}\n```")
            .unwrap();
    assert!(matches!(decision.get("completed"), Some(Json::Bool(true))));
}

#[test]
fn accepts_externally_tagged_policy_actions() {
    let decision = parse_decision(
        r#"{"rationale":"move","actions":[{"mouse_move_to":{"x":1800,"y":800}}],"completed":false,"progress":0.5}"#,
    )
    .unwrap();
    let action = &decision.get("actions").unwrap().as_items().unwrap()[0];
    assert_eq!(action.get("type").unwrap().as_text().unwrap(), "mouse_move_to");
    assert!(matches!(action.get("x"), Some(Json::Number(x)) if x == "1800"));
    assert!(matches!(action.get("y"), Some(Json::Number(y)) if y == "800"));
}

#[test]
fn routes_foundry_project_endpoints_to_openai_responses() {
    assert_eq!(
        azure_responses_endpoint(
            "https://example.services.ai.azure.com/api/projects/example-project"
        ),
        "https://example.services.ai.azure.com/api/projects/example-project/openai/v1/responses"
    );
    assert_eq!(
        azure_responses_endpoint("https://example.openai.azure.com/openai/v1/"),
        "https://example.openai.azure.com/openai/v1/responses"
    );
}

#[test]
fn preserves_foundry_endpoint_query_parameters() {
    assert_eq!(
        azure_responses_endpoint(
            "https://example.services.ai.azure.com/api/projects/example-project?region=eastus"
        ),
        "https://example.services.ai.azure.com/api/projects/example-project/openai/v1/responses?region=eastus"
    );
    assert_eq!(
        azure_responses_endpoint(
            "https://example.services.ai.azure.com/api/projects/example-project/openai/v1/responses?api-version=preview"
        ),
        "https://example.services.ai.azure.com/api/projects/example-project/openai/v1/responses"
    );
}

#[test]
fn routing_a_routed_address_changes_nothing() {
    for endpoint in [
        "https://example.services.ai.azure.com/api/projects/p?api-version=1&region=eastus",
        "https://example.openai.azure.com/openai/v1//",
        "https://example.openai.azure.com",
        "",
    ] {
        let routed = azure_responses_endpoint(endpoint);
        assert_eq!(azure_responses_endpoint(&routed), routed);
    }
    assert_eq!(
        azure_responses_endpoint("https://h/openai/v1/responses?api-version=1&region=eastus"),
        "https://h/openai/v1/responses?region=eastus"
    );
    assert_eq!(azure_responses_endpoint("https://h"), "https://h/responses");
}

#[test]
fn service_is_chosen_by_what_is_configured() {
    let some = |text: &str| Some(text.to_string());
    let found = choose_endpoint(some("https://h/openai/v1"), some("k"), some("o"), None).unwrap();
    assert_eq!(found.url, "https://h/openai/v1/responses");
    assert_eq!((found.api_key.as_str(), found.kind), ("k", ApiKind::Responses));
    assert_eq!(
        choose_endpoint(some("https://h"), None, some("o"), None).unwrap_err(),
        "AZURE_OPENAI_API_KEY is required when AZURE_OPENAI_ENDPOINT is set"
    );
    let found = choose_endpoint(None, some("k"), some("o"), None).unwrap();
    assert_eq!(found.url, "https://api.openai.com/v1/chat/completions");
    assert_eq!((found.api_key.as_str(), found.kind), ("o", ApiKind::ChatCompletions));
    let found = choose_endpoint(None, None, some("o"), some("http://localhost:1//")).unwrap();
    assert_eq!(found.url, "http://localhost:1/chat/completions");
    assert_eq!(
        choose_endpoint(None, None, None, some("http://localhost:1")).unwrap_err(),
        "OPENAI_API_KEY or AZURE_OPENAI_API_KEY is required for the agent command"
    );
}

#[test]
fn actions_of_any_shape_become_flat() {
    for (written, flat) in [
        (
            r#"{"actions":[{"type":"wait","milliseconds":5}]}"#,
            r#"{"actions":[{"milliseconds":5,"type":"wait"}]}"#,
        ),
        (
            r#"{"actions":[{"key_sequence":{"keys":["a"]}},{"other":{"x":1}},7]}"#,
            r#"{"actions":[{"type":"key_sequence","keys":["a"]},{"other":{"x":1}},7]}"#,
        ),
        (
            r#"{"actions":[{"wait":{"type":"other","milliseconds":5}}]}"#,
            r#"{"actions":[{"type":"other","milliseconds":5}]}"#,
        ),
        (r#"{"actions":{"wait":{}}}"#, r#"{"actions":{"wait":{}}}"#),
        ("[1]", "[1]"),
    ] {
        let json = normalize_externally_tagged_actions(parse_json(written).unwrap());
        assert_eq!(show(&json), flat);
    }
}

#[test]
fn fences_are_stripped() {
    for (content, inner) in [
        (" {} ", "{}"),
        ("```\n{}\n```", "{}"),
        ("```JSON {} ```\n", "{}"),
        ("```json{}", "{}"),
        ("``{}``", "``{}``"),
    ] {
        assert_eq!(strip_fence(content), inner);
    }
    assert!(parse_decision("nothing").is_err());
    assert_eq!(
        invalid_decision("nothing"),
        "policy returned an invalid decision: nothing"
    );
}

#[test]
fn json_is_read_with_all_its_parts() {
    let text = r#" {"b": [null, true, -1.50, 12345678901234567890], "a": "xA\n", "b2": {}} "#;
    let (json, shown) = reread_json(text).unwrap();
    assert_eq!(shown, show(&json));
    assert_eq!(json.get("a").unwrap().as_text().unwrap(), "xA\n");
    let items = json.get("b").unwrap().as_items().unwrap();
    assert_eq!(
        items.iter().map(show).collect::<Vec<_>>(),
        ["null", "true", "-1.5", "12345678901234567890"]
    );
    assert!(json.get("c").is_none());
    assert!(parse_json("{\"a\":}").is_err());
    assert!(parse_json("").is_err());
}

#[test]
fn model_text_is_found_in_either_answer() {
    let chat = parse_json(r#"{"choices":[{"message":{"content":"hi"}},{"message":{}}]}"#).unwrap();
    assert_eq!(find_model_text(ApiKind::ChatCompletions, &chat), Some("hi".to_string()));
    assert_eq!(find_model_text(ApiKind::Responses, &chat), None);
    let responses = parse_json(
        r#"{"output":[{"type":"reasoning"},{"content":[{"type":"refusal"},{"type":"output_text","text":"yes"},{"text":"no"}]}]}"#,
    )
    .unwrap();
    assert_eq!(find_model_text(ApiKind::Responses, &responses), Some("yes".to_string()));
    assert_eq!(find_model_text(ApiKind::ChatCompletions, &responses), None);
}

#[test]
fn replies_are_read_or_refused() {
    let body = r#"{"choices": [{"message": {"content": "hi"}}]}"#;
    assert_eq!(
        read_reply(ApiKind::ChatCompletions, true, "200 OK", body).unwrap(),
        "hi"
    );
    assert!(matches!(
        read_reply(ApiKind::ChatCompletions, false, "429 Too Many Requests", r#"{"error": {"code": 1}}"#),
        Err(ReplyError::Refused(message))
            if message == r#"policy request returned 429 Too Many Requests: {"error":{"code":1}}"#
    ));
    assert!(matches!(
        read_reply(ApiKind::Responses, true, "200 OK", body),
        Err(ReplyError::Refused(message))
            if message == "policy response did not contain model output text"
    ));
    assert!(matches!(
        read_reply(ApiKind::Responses, false, "502 Bad Gateway", "<html>"),
        Err(ReplyError::NotJson(_))
    ));
}

#[test]
fn requests_hold_the_instructions_and_the_frames() {
    let frames = VecDeque::from([Frame {
        path: b"f/\xff.png".to_vec(),
        media_type: "image/png",
        bytes: b"foo".to_vec(),
    }]);
    let body = request_body(ApiKind::Responses, "m", "click", "[]", &frames);
    assert_eq!(body.get("model").unwrap().as_text().unwrap(), "m");
    assert_eq!(body.get("instructions").unwrap().as_text().unwrap(), SYSTEM_PROMPT);
    assert_eq!(show(body.get("text").unwrap()), r#"{"format":{"type":"json_object"}}"#);
    assert_eq!(
        show(body.get("input").unwrap()),
        "[{\"role\":\"user\",\"content\":[\
         {\"type\":\"input_text\",\"text\":\"Return the policy decision as JSON.\\n\\nGUI \
         instructions:\\nclick\\n\\nPrevious transitions:\\n[]\"},\
         {\"type\":\"input_text\",\"text\":\"Trajectory frame 0: f/\u{fffd}.png\"},\
         {\"type\":\"input_image\",\"image_url\":\"data:image/png;base64,Zm9v\",\
         \"detail\":\"high\"}]}]"
    );

    let body = request_body(ApiKind::ChatCompletions, "m", "click", "[]", &frames);
    assert_eq!(show(body.get("response_format").unwrap()), r#"{"type":"json_object"}"#);
    assert_eq!(show(body.get("temperature").unwrap()), "0.1");
    let messages = body.get("messages").unwrap().as_items().unwrap();
    assert_eq!(messages[0].get("content").unwrap().as_text().unwrap(), SYSTEM_PROMPT);
    let content = messages[1].get("content").unwrap().as_items().unwrap();
    assert_eq!(content.len(), 3);
    assert_eq!(
        show(&content[2]),
        r#"{"type":"image_url","image_url":{"url":"data:image/png;base64,Zm9v","detail":"high"}}"#
    );
}

#[test]
fn keys_that_the_prompt_names_are_accepted() {
    for key in [".", "enter", "tab", "space"] {
        assert!(SYSTEM_PROMPT.contains("key_sequence"));
        let keys = vec![key.to_string()];
        assert!(validate_actions(&[Action::KeySequence { keys }]).is_ok(), "{key}");
    }
}

use gemini_chat::json::request_to_json;
use gemini_chat::request::{convert_to_gemini_request, Chat};

fn turn(role: &str, content: &str) -> Chat {
    Chat { role: role.to_string(), content: content.to_string() }
}

#[test]
fn request_preserves_turns_in_order() {
    let history = vec![
        turn("user", "first question"),
        turn("model", "first answer"),
        turn("user", "second question"),
    ];
    let request = convert_to_gemini_request(&history);
    assert_eq!(request.contents.len(), 3);
    for (content, chat) in request.contents.iter().zip(history.iter()) {
        assert_eq!(content.role, chat.role);
        assert_eq!(content.parts.len(), 1);
        assert_eq!(content.parts[0].text, chat.content);
    }
}

#[test]
fn empty_history_gives_empty_request() {
    let request = convert_to_gemini_request(&vec![]);
    assert_eq!(request.contents.len(), 0);
    assert_eq!(request_to_json(&request), "{\"contents\":[]}");
}

#[test]
fn single_turn_json_is_exact() {
    let request = convert_to_gemini_request(&vec![turn("user", "hi")]);
    let body = request_to_json(&request);
    assert_eq!(body, "{\"contents\":[{\"role\":\"user\",\"parts\":[{\"text\":\"hi\"}]}]}");
}

#[test]
fn json_escapes_quote_backslash_and_control() {
    let request = convert_to_gemini_request(&vec![turn("user", "a\"b\\c\nd")]);
    let body = request_to_json(&request);
    assert_eq!(
        body,
        "{\"contents\":[{\"role\":\"user\",\"parts\":[{\"text\":\"a\\\"b\\\\c\\u000ad\"}]}]}"
    );
}

#[test]
fn serialized_history_round_trips_through_a_json_parser() {
    let history = vec![
        turn("user", "what is a monad?"),
        turn("model", "a monoid in the category of endofunctors"),
        turn("user", "say it with \"quotes\", a back\\slash,\nand a newline"),
        turn("model", "non-ascii survives: grüße, 日本語, ⚠"),
    ];
    let request = convert_to_gemini_request(&history);
    let body = request_to_json(&request);

    let value: serde_json::Value = serde_json::from_str(&body).expect("framed body is valid JSON");
    let contents = value["contents"].as_array().expect("contents is an array");
    assert_eq!(contents.len(), history.len());
    for (entry, chat) in contents.iter().zip(history.iter()) {
        assert_eq!(entry["role"].as_str().expect("role is a string"), chat.role);
        let parts = entry["parts"].as_array().expect("parts is an array");
        assert_eq!(parts.len(), 1);
        assert_eq!(parts[0]["text"].as_str().expect("text is a string"), chat.content);
    }
}

#[test]
fn every_control_character_round_trips() {
    let mut content = String::new();
    for code in 0u8..0x20u8 {
        content.push(code as char);
    }
    let request = convert_to_gemini_request(&vec![turn("user", &content)]);
    let body = request_to_json(&request);
    let value: serde_json::Value = serde_json::from_str(&body).expect("framed body is valid JSON");
    assert_eq!(
        value["contents"][0]["parts"][0]["text"].as_str().expect("text is a string"),
        content
    );
}

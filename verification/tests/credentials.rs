use song_class::roster::{is_masked, mask_sensitive, ClassroomSummary};

fn summary_json(summary: &ClassroomSummary) -> String {
    let mut object = serde_json::Map::new();
    object.insert("id".to_string(), serde_json::Value::from(summary.id));
    object.insert("name".to_string(), serde_json::Value::from(summary.name.clone()));
    object.insert("line_enabled".to_string(), serde_json::Value::from(summary.line_enabled));
    object.insert(
        "line_channel_access_token".to_string(),
        serde_json::Value::from(mask_sensitive(&summary.line_channel_access_token)),
    );
    object.insert(
        "line_channel_secret".to_string(),
        serde_json::Value::from(mask_sensitive(&summary.line_channel_secret)),
    );
    object.insert(
        "line_rich_menu_id".to_string(),
        serde_json::Value::from(summary.line_rich_menu_id.clone()),
    );
    serde_json::Value::Object(object).to_string()
}

#[test]
fn mask_sensitive_and_is_masked_work_correctly() {
    assert!(is_masked("abcd****"), "masked value should be detected");
    assert!(!is_masked(""), "empty string is not masked");
    assert!(!is_masked("realtoken123"), "real value without ****");

    let result = summary_json(&ClassroomSummary {
        id: 1,
        name: "test".into(),
        line_enabled: true,
        line_channel_access_token: "my-secret-token-here".into(),
        line_channel_secret: "my-secret".into(),
        line_rich_menu_id: "rich123".into(),
    });

    assert!(result.contains("my-s****"), "token should be masked: {result}");
    assert!(result.contains("my-s****"), "secret should be masked: {result}");
    assert!(!result.contains("my-secret-token-here"), "full token hidden");
    assert!(!result.contains("my-secret"), "full secret hidden");
}

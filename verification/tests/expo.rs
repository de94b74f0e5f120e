use pos_backend::clients::expo_client::ExpoClient;

#[test]
fn one_message_per_token() {
    let tokens = vec!["ExponentPushToken[a]".to_string(), "ExponentPushToken[b]".to_string()];
    let messages = ExpoClient::messages(&tokens, "TEST", "hello");
    assert_eq!(messages.len(), 2);
    assert_eq!(messages[0].to, "ExponentPushToken[a]");
    assert_eq!(messages[1].to, "ExponentPushToken[b]");
    assert!(messages.iter().all(|m| m.title == "TEST" && m.body == "hello"));
    assert!(ExpoClient::messages(&[], "t", "b").is_empty());
}

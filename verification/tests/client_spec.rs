use baml_ir::repr::ClientSpec;

#[test]
fn client_spec_shorthand_round_trip() {
    let spec = ClientSpec::new_from_id("openai/gpt-4o".to_string());
    assert_eq!(spec, ClientSpec::Shorthand("openai".to_string(), "gpt-4o".to_string()));
    assert_eq!(spec.as_str(), "openai/gpt-4o");
}

#[test]
fn client_spec_named() {
    let spec = ClientSpec::new_from_id("MyClient".to_string());
    assert_eq!(spec, ClientSpec::Named("MyClient".to_string()));
    assert_eq!(spec.as_str(), "MyClient");
    assert!(spec.required_env_vars().is_empty());
}

#[test]
fn client_spec_splits_at_first_slash() {
    let spec = ClientSpec::new_from_id("a/b/c".to_string());
    assert_eq!(spec, ClientSpec::Shorthand("a".to_string(), "b/c".to_string()));
}

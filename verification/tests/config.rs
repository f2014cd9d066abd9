use roots::config::{
    get_server_model, model_aliases, resolve_model, suggested_models, ConfigValue, RootsConfig,
    DEFAULT_MODEL,
};

fn pair(a: &str, b: &str) -> (String, String) {
    (a.to_string(), b.to_string())
}

#[test]
fn aliases_resolve_to_names_and_kinds() {
    assert_eq!(resolve_model("lite"), pair("lite", "lite"));
    assert_eq!(resolve_model("bge-base"), pair("BAAI/bge-base-en-v1.5", "sentence-transformers"));
    assert_eq!(resolve_model("minilm"), pair("sentence-transformers/all-MiniLM-L6-v2", "sentence-transformers"));
    assert_eq!(resolve_model("qwen-8b"), pair("Qwen/Qwen3-Embedding-8B", "sentence-transformers"));
}

#[test]
fn other_inputs_are_taken_as_model_names() {
    assert_eq!(resolve_model("my/model"), pair("my/model", "sentence-transformers"));
    assert_eq!(resolve_model("BAAI/bge-base-en-v1.5"), pair("BAAI/bge-base-en-v1.5", "sentence-transformers"));
    assert_eq!(resolve_model("Lite"), pair("Lite", "sentence-transformers"));
    assert_eq!(resolve_model(""), pair("", "sentence-transformers"));
}

#[test]
fn the_catalog_lists_eight_models() {
    let models = suggested_models();
    assert_eq!(models.len(), 8);
    assert_eq!(models[0].alias, "lite");
    assert_eq!(models[0].size, "0MB");
    assert_eq!(models[3].alias, DEFAULT_MODEL);
    assert_eq!(models[3].description, "Default. Good balance of quality and speed");
    let table = model_aliases();
    assert_eq!(table.len(), 8);
    for (k, (alias, info)) in table.iter().enumerate() {
        assert_eq!(*alias, models[k].alias);
        assert_eq!(info.name, models[k].name);
        assert_eq!(info.model_type, models[k].model_type);
    }
}

#[test]
fn the_server_model_falls_back_to_the_default() {
    assert_eq!(get_server_model(None), pair("BAAI/bge-base-en-v1.5", "sentence-transformers"));
    assert_eq!(get_server_model(Some("bge-small")), pair("BAAI/bge-small-en-v1.5", "sentence-transformers"));
    assert_eq!(get_server_model(Some("lite")), pair("lite", "lite"));
    assert_eq!(get_server_model(Some("x/y")), pair("x/y", "sentence-transformers"));
}

#[test]
fn a_project_configuration_reads_and_overrides() {
    let mut config = RootsConfig::new();
    assert_eq!(config.get("embedding_model"), None);
    assert_eq!(config.embedding_model(), "bge-base");
    assert_eq!(config.get_resolved_model(), pair("BAAI/bge-base-en-v1.5", "sentence-transformers"));

    config.set_embedding_model("lite");
    assert_eq!(config.embedding_model(), "lite");
    assert_eq!(config.get_resolved_model(), pair("lite", "lite"));

    config.set("embedding_model", "qwen-4b");
    config.set("other", "value");
    assert_eq!(config.get("embedding_model"), Some("qwen-4b".to_string()));
    assert_eq!(config.get("other"), Some("value".to_string()));
    assert_eq!(config.get("missing"), None);
}

#[test]
fn configured_values_read_as_texts() {
    let mut config = RootsConfig::new();
    config.insert("n", ConfigValue::Number("42".to_string()));
    config.insert("yes", ConfigValue::Flag(true));
    config.insert("no", ConfigValue::Flag(false));
    config.insert("list", ConfigValue::Other);
    config.insert("embedding_model", ConfigValue::Other);
    assert_eq!(config.get("n"), Some("42".to_string()));
    assert_eq!(config.get("yes"), Some("true".to_string()));
    assert_eq!(config.get("no"), Some("false".to_string()));
    assert_eq!(config.get("list"), None);
    assert_eq!(config.embedding_model(), "bge-base");
}

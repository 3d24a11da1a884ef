use ocr_eg::config::{migrate_config, ApiKey, AppConfig};
use ocr_eg::i18n::I18n;
use ocr_eg::provider::{
    ocr_request, provider_id, provider_name, resolve_provider, strip_data_uri_prefix, ConfigError, ProviderKind,
};

#[test]
fn texts_by_language() {
    let mut i = I18n::new("en_US");
    assert_eq!(i.t("ready"), "Ready");
    assert_eq!(i.t("ocr_result_dir"), "lumi_ocr_results_");
    assert_eq!(i.t("no_such_key"), "no_such_key");
    i.set_lang("zh_CN");
    assert_eq!(i.t("ready"), "准备就绪");
    assert_eq!(i.t("ocr_result_dir"), "ocr_结果_");
    i.set_lang("fr_FR");
    assert_eq!(i.t("ready"), "ready");
}

#[test]
fn default_settings() {
    let c = AppConfig::default();
    assert_eq!(c.api_key, None);
    assert_eq!(c.language, "zh_CN");
    assert_eq!(c.active_provider, "mistral");
    assert!(c.api_keys.is_empty());
}

#[test]
fn old_key_moves_to_mistral() {
    let c = AppConfig {
        api_key: Some("k1".to_string()),
        language: "en_US".to_string(),
        active_provider: String::new(),
        api_keys: Vec::new(),
    };
    let m = migrate_config(c);
    assert_eq!(m.active_provider, "mistral");
    assert_eq!(m.api_keys.len(), 1);
    assert_eq!(m.api_keys[0].provider, "mistral");
    assert_eq!(m.api_keys[0].key, "k1");
}

#[test]
fn stored_key_is_kept() {
    let c = AppConfig {
        api_key: Some("old".to_string()),
        language: "en_US".to_string(),
        active_provider: "other".to_string(),
        api_keys: vec![ApiKey { provider: "mistral".to_string(), key: "new".to_string() }],
    };
    let m = migrate_config(c);
    assert_eq!(m.active_provider, "other");
    assert_eq!(m.api_keys.len(), 1);
    assert_eq!(m.api_keys[0].key, "new");
}

#[test]
fn provider_selection() {
    assert_eq!(resolve_provider("mistral"), Ok(ProviderKind::Mistral));
    assert_eq!(resolve_provider("openai"), Err(ConfigError::UnknownProvider));
    assert_eq!(resolve_provider(""), Err(ConfigError::UnknownProvider));
    assert_eq!(provider_id(ProviderKind::Mistral), "mistral");
    assert_eq!(provider_name(ProviderKind::Mistral), "Mistral AI");
}

#[test]
fn data_uri_prefix_stripped() {
    assert_eq!(strip_data_uri_prefix("data:image/png;base64,QUJD"), "QUJD");
    assert_eq!(strip_data_uri_prefix("QUJD"), "QUJD");
    assert_eq!(strip_data_uri_prefix("a,b,c"), "b,c");
    assert_eq!(strip_data_uri_prefix(","), "");
}

#[test]
fn recognition_request() {
    let r = ocr_request("https://example.com/doc".to_string());
    assert_eq!(r.model, "mistral-ocr-latest");
    assert_eq!(r.document.doc_type, "document_url");
    assert_eq!(r.document.document_url, "https://example.com/doc");
    assert!(r.include_image_base64);
}

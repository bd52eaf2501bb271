use aidms_core::config::{config_from_row, stored_key_ref, Provider};
use aidms_core::fields::{merge_field_value, preset_fields, should_seed_presets};
use aidms_core::ocr::ocr_images;
use aidms_core::settings::{config_from_input, device_passphrase, key_to_store, SaveLlmConfigInput};
use aidms_core::watch::{watch_plan, WatchState};
use aidms_core::commands::ImportPlan;
use aidms_core::parse::Kind;

#[test]
fn provider_text_roundtrip() {
    for p in [Provider::Ollama, Provider::OpenAiCompat] {
        assert_eq!(Provider::from_str(p.as_str()), Some(p));
    }
    assert_eq!(Provider::from_str("Ollama"), None);
}

#[test]
fn stored_settings_read_back() {
    let c = config_from_row(Some("openai_compat".into()), Some("u".into()), None, Some("g".into()), 1, &Some("keyring:llm_api_key".into()));
    assert_eq!(c.provider, Some(Provider::OpenAiCompat));
    assert!(c.enabled && c.has_api_key);
    let d = config_from_row(Some("other".into()), None, None, None, 0, &None);
    assert_eq!(d.provider, None);
    assert!(!d.enabled && !d.has_api_key);
    assert_eq!(stored_key_ref(true).as_deref(), Some("keyring:llm_api_key"));
    assert_eq!(stored_key_ref(false), None);
}

#[test]
fn save_request_checks_provider() {
    let input = SaveLlmConfigInput {
        provider: "bogus".into(),
        base_url: "u".into(),
        embed_model: None,
        gen_model: None,
        api_key: None,
        enabled: true,
    };
    assert_eq!(config_from_input(input).unwrap_err(), "未知 provider: bogus");
    let ok = SaveLlmConfigInput {
        provider: "ollama".into(),
        base_url: "http://127.0.0.1:11434".into(),
        embed_model: Some("bge-m3".into()),
        gen_model: None,
        api_key: Some("".into()),
        enabled: true,
    };
    assert_eq!(key_to_store(&ok.api_key), None);
    let cfg = config_from_input(ok).unwrap();
    assert_eq!(cfg.provider, Some(Provider::Ollama));
    assert!(!cfg.has_api_key);
    assert_eq!(key_to_store(&Some("sk".into())).as_deref(), Some("sk"));
}

#[test]
fn passphrase_from_host() {
    assert_eq!(device_passphrase(Some("pc-1".into())), "aidms-local-v1|pc-1");
    assert_eq!(device_passphrase(None), "aidms-local-v1|unknown");
}

#[test]
fn watch_state_transitions() {
    let mut w = WatchState::new();
    assert_eq!(w.is_watching(), (false, None));
    w.begin("/data/in", vec![1]);
    w.started();
    assert_eq!(w.is_watching(), (true, Some("/data/in".to_string())));
    let unwatch = w.stop_watch();
    assert_eq!(unwatch.as_deref(), Some("/data/in"));
    assert!(w.stop_end(Ok(())).is_ok());
    assert_eq!(w.is_watching(), (false, None));
    assert_eq!(w.stop_watch(), None);
}

#[test]
fn watch_failed_unwatch_keeps_folder() {
    let mut w = WatchState::new();
    w.begin("/d", vec![]);
    w.started();
    let _ = w.stop_watch();
    assert_eq!(w.stop_end(Err("busy".into())).unwrap_err(), "停止监控失败: busy");
    assert_eq!(w.is_watching(), (false, Some("/d".to_string())));
}

#[test]
fn watch_records_textless_files() {
    assert!(matches!(watch_plan(Kind::Docx, Ok(None)), ImportPlan::RecordFailure(m) if m == "文件无文本内容"));
    assert!(matches!(watch_plan(Kind::Image, Ok(None)), ImportPlan::AwaitOcr(_)));
}

#[test]
fn ocr_pages_joined() {
    let pages = vec![Ok("甲".to_string()), Ok("乙".to_string())];
    assert_eq!(ocr_images(&pages).unwrap(), "\n--- 第 1 页 ---\n甲\n--- 第 2 页 ---\n乙");
    let failing = vec![Ok("甲".to_string()), Err("识别失败: x".to_string()), Err("later".to_string())];
    assert_eq!(ocr_images(&failing).unwrap_err(), "识别失败: x");
    assert_eq!(ocr_images(&vec![]).unwrap(), "");
}

#[test]
fn preset_fields_and_seeding() {
    let p = preset_fields();
    assert_eq!(p.len(), 13);
    assert_eq!((p[3].field_key.as_str(), p[3].options.as_deref()), ("level", Some("[\"A\",\"B\",\"C\"]")));
    assert!(should_seed_presets(0));
    assert!(!should_seed_presets(13));
}

#[test]
fn field_snapshot_merge() {
    assert_eq!(merge_field_value(&None, "k", "v").unwrap(), "{\"k\":\"v\"}");
    assert_eq!(merge_field_value(&Some("  ".into()), "k", "v").unwrap(), "{\"k\":\"v\"}");
    assert_eq!(merge_field_value(&Some("{\"a\":\"1\"}".into()), "k", "v").unwrap(), "{\"a\":\"1\",\"k\":\"v\"}");
    assert_eq!(merge_field_value(&Some("{\"k\":\"old\"}".into()), "k", "new").unwrap(), "{\"k\":\"new\"}");
    assert!(merge_field_value(&Some("bad".into()), "k", "v").unwrap_err().starts_with("fields JSON 解析失败: "));
}

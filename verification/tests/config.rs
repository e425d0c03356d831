use dictate_desktop::config::{
    all_models, api_key_var, get_api_key, is_english_only, lang_name, model_caps,
    parse_provider_model, provider_models, resolve_model, Config, LangCoverage, ModelCaps,
    ALL_MODELS, LANGUAGES, PROVIDERS,
};

#[test]
fn ids_split_at_the_first_slash() {
    assert_eq!(parse_provider_model("groq/whisper-large-v3"), ("groq", "whisper-large-v3"));
    assert_eq!(parse_provider_model("nova-3"), ("deepgram", "nova-3"));
    assert_eq!(parse_provider_model("a/b/c"), ("a", "b/c"));
    assert_eq!(parse_provider_model("/x"), ("", "x"));
    assert_eq!(parse_provider_model(""), ("deepgram", ""));
}

#[test]
fn coverage_handles_the_languages_it_names() {
    let english = LangCoverage::English;
    assert!(english.covers(&["en"]));
    assert!(english.covers(&["auto"]));
    assert!(english.covers(&[]));
    assert!(!english.covers(&["en", "fr"]));
    assert!(LangCoverage::All.covers(&["ro", "fr"]));
    let caps = model_caps("assemblyai", "universal");
    let live = caps.coverage("live").unwrap();
    assert!(live.covers(&["en", "fr"]));
    assert!(!live.covers(&["ro"]));
    assert!(caps.coverage("batch").unwrap().covers(&["ro"]));
    assert!(model_caps("groq", "whisper-large-v3").coverage("live").is_none());
}

#[test]
fn english_only_needs_a_mode() {
    let nothing = ModelCaps { live: None, batch: None, rank: 0 };
    assert!(!is_english_only(&nothing));
    let english = ModelCaps { live: None, batch: Some(LangCoverage::English), rank: 0 };
    assert!(is_english_only(&english));
    let more = ModelCaps { live: Some(LangCoverage::All), batch: Some(LangCoverage::English), rank: 0 };
    assert!(!is_english_only(&more));
}

#[test]
fn a_model_that_does_the_job_stays() {
    assert_eq!(resolve_model("assemblyai/universal", "live", &["en"]), None);
    assert_eq!(resolve_model("deepgram/nova-3", "live", &["en", "fr"]), None);
}

#[test]
fn a_model_without_live_support_falls_back_on_one_with_it() {
    let r = resolve_model("groq/whisper-large-v3-turbo", "live", &["en"]).unwrap();
    let (p, m) = parse_provider_model(&r);
    assert!(model_caps(p, m).coverage("live").unwrap().covers(&["en"]));
    assert_eq!(resolve_model(&r, "live", &["en"]), None);
}

#[test]
fn a_fallback_prefers_the_provider_and_then_the_rank() {
    for id in ALL_MODELS {
        for mode in ["live", "batch", "vad"] {
            for langs in [vec!["en"], vec!["ro"], vec!["en", "fr", "ro"], vec!["ja", "auto"], vec!["xx"]] {
                let fits = |id: &str| {
                    let (p, m) = parse_provider_model(id);
                    model_caps(p, m).coverage(mode).map_or(false, |c| c.covers(&langs))
                };
                match resolve_model(id, mode, &langs) {
                    None => assert!(fits(id)),
                    Some(f) => {
                        assert!(!fits(id));
                        assert!(fits(&f));
                        let own = parse_provider_model(id).0;
                        if ALL_MODELS.iter().any(|x| parse_provider_model(x).0 == own && fits(x)) {
                            assert_eq!(parse_provider_model(&f).0, own);
                        }
                    }
                }
            }
        }
    }
}

#[test]
fn languages_have_names() {
    assert_eq!(LANGUAGES.len(), 28);
    assert_eq!(lang_name("en"), Some("English"));
    assert_eq!(lang_name("ro"), Some("Romanian"));
    assert_eq!(lang_name("xx"), None);
}

#[test]
fn the_catalogue_lists_every_provider_model() {
    let mut ids = Vec::new();
    for p in PROVIDERS {
        for m in provider_models(p) {
            ids.push(format!("{}/{}", p, m));
        }
    }
    let mut all = all_models();
    ids.sort();
    all.sort();
    assert_eq!(ids, all);
    assert!(provider_models("nobody").is_empty());
}

#[test]
fn keys_come_from_the_environment() {
    assert_eq!(api_key_var("groq"), Some("GROQ_API_KEY"));
    assert_eq!(get_api_key("groq", Some("k".to_string())), Ok("k".to_string()));
    assert_eq!(get_api_key("groq", None), Err("GROQ_API_KEY not set".to_string()));
    assert_eq!(get_api_key("nobody", Some("k".to_string())), Err("unknown provider: nobody".to_string()));
}

#[test]
fn files_are_below_their_directories() {
    let c = Config::new("/run/user/1000", "/home/u/.config", "/home/u/.local/state/");
    assert_eq!(c.config_file, "/home/u/.config/dictate-desktop/config.toml");
    assert_eq!(c.defaults_file, "/home/u/.config/dictate-desktop/defaults.toml");
    assert_eq!(c.state_file, "/run/user/1000/dictate-desktop.state");
    assert_eq!(c.socket_path, "/run/user/1000/dictate-desktop.sock");
    assert_eq!(c.history_file, "/home/u/.local/state/dictate-desktop/history.log");
    assert_eq!(c.audio_dir, "/home/u/.local/state/dictate-desktop/audio");
}

use dictate_desktop::state::{
    default_correct_hold_ms, default_delivery, default_font, default_lang, default_languages,
    default_mode, default_model, default_true, merge_layers, parse_langs, OverlayMode, State,
    StateFile,
};

fn file() -> StateFile {
    StateFile {
        lang: default_lang(None),
        model: default_model(None),
        mode: default_mode(),
        delivery: default_delivery(None),
        enter: false,
        correct: false,
        correct_hold_ms: default_correct_hold_ms(),
        font: default_font(None),
        input: String::new(),
        languages: default_languages(None),
        overlay: None,
        vocabulary: Vec::new(),
        remove_fillers: default_true(),
        output: None,
        auto_paste: None,
    }
}

#[test]
fn defaults_can_come_from_the_environment() {
    assert_eq!(default_lang(None), "auto");
    assert_eq!(default_lang(Some("fr".to_string())), "fr");
    assert_eq!(default_font(None), "Inter");
    assert_eq!(default_languages(None), ["en", "fr", "ro"]);
    assert_eq!(default_languages(Some(" de, ,it ".to_string())), ["de", "it"]);
    assert_eq!(parse_langs("en,,fr , "), ["en", "fr"]);
}

#[test]
fn overlay_modes_have_names() {
    for m in [OverlayMode::Off, OverlayMode::Status, OverlayMode::Full] {
        assert!(OverlayMode::from_name(m.name()) == Some(m));
    }
    assert!(OverlayMode::from_name("on").is_none());
}

#[test]
fn older_files_are_migrated() {
    let cases = [
        (Some("clipboard"), Some(false), "clipboard"),
        (Some("clipboard"), None, "clipboard"),
        (Some("type"), Some(false), "type"),
        (Some("type"), Some(true), "auto"),
        (None, None, "auto"),
    ];
    for (output, auto_paste, delivery) in cases {
        let mut f = file();
        f.output = output.map(|s| s.to_string());
        f.auto_paste = auto_paste;
        f.delivery = "type".to_string();
        assert_eq!(State::load(f, false).delivery, delivery);
    }
}

#[test]
fn a_delivery_in_the_file_wins_over_older_settings() {
    let mut f = file();
    f.output = Some("clipboard".to_string());
    f.delivery = "type".to_string();
    let s = State::load(f, true);
    assert_eq!(s.delivery, "type");
    assert_eq!(s.output, "type");
    assert!(!s.auto_paste);
}

#[test]
fn multi_is_detection() {
    let mut f = file();
    f.lang = "multi".to_string();
    assert_eq!(State::load(f, true).lang, "auto");
}

#[test]
fn the_overlay_follows_the_delivery() {
    let mut s = State::load(file(), true);
    assert!(s.overlay_mode() == OverlayMode::Status);
    s.set_delivery("clipboard".to_string());
    assert!(s.overlay_mode() == OverlayMode::Full);
    s.overlay = Some(OverlayMode::Off);
    assert!(s.overlay_mode() == OverlayMode::Off);
}

#[test]
fn delivery_and_its_halves_agree() {
    let mut s = State::load(file(), true);
    s.set_output("clipboard".to_string());
    assert_eq!(s.delivery, "clipboard");
    s.set_output("type".to_string());
    assert_eq!(s.delivery, "auto");
    s.set_auto_paste(false);
    assert_eq!((s.delivery.as_str(), s.output.as_str()), ("type", "type"));
    s.set_delivery("auto".to_string());
    assert!(s.auto_paste);
}

#[test]
fn settings_survive_a_restart() {
    let mut s = State::load(file(), true);
    s.vocabulary.push("Verus".to_string());
    s.languages.push("de".to_string());
    s.set_auto_paste(false);
    s.overlay = Some(OverlayMode::Full);
    let saved = s.save();
    assert!(saved.output.is_none() && saved.auto_paste.is_none());
    let t = State::load(saved, true);
    assert_eq!(t.vocabulary, s.vocabulary);
    assert_eq!(t.languages, s.languages);
    assert_eq!((t.delivery, t.output, t.auto_paste), ("type".to_string(), "type".to_string(), false));
    assert!(t.overlay == Some(OverlayMode::Full));
    let c = s.duplicate();
    assert_eq!(c.font, s.font);
}

#[test]
fn managed_defaults_are_laid_over_the_file() {
    let (merged, has_delivery) = merge_layers("lang = \"fr\"\nenter = true\n", "lang = \"en\"\n");
    let table: toml::Table = toml::from_str(&merged).unwrap();
    assert_eq!(table["lang"].as_str(), Some("en"));
    assert_eq!(table["enter"].as_bool(), Some(true));
    assert_eq!(table.len(), 2);
    assert!(!has_delivery);
}

#[test]
fn a_delivery_in_either_layer_counts() {
    assert!(merge_layers("delivery = \"type\"", "").1);
    assert!(merge_layers("", "delivery = \"type\"").1);
    assert!(!merge_layers("", "").1);
}

#[test]
fn a_layer_that_is_not_toml_counts_as_empty() {
    let (merged, has_delivery) = merge_layers("lang = ", "delivery = \"auto\"");
    let table: toml::Table = toml::from_str(&merged).unwrap();
    assert_eq!(table.len(), 1);
    assert!(has_delivery);
    assert_eq!(merge_layers("=", "=").0, "");
}

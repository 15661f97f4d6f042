use kiwi_downloader::locales::{language_keyboard, pick_text, supported_languages, I18n, I18nError};

fn sources() -> Vec<(String, String)> {
    vec![
        ("en".to_string(), "welcome = Hello\nbye = Goodbye\ngreet = Hi { $name }\n".to_string()),
        ("de".to_string(), "welcome = Hallo\n".to_string()),
    ]
}

#[test]
fn supported_language_list() {
    let langs = supported_languages();
    let codes: Vec<&str> = langs.iter().map(|l| l.code).collect();
    assert_eq!(codes, vec!["tr", "en", "es", "it", "ru", "fr", "de", "mi"]);
    assert_eq!(langs[4].name, "Русский");
}

#[test]
fn language_keyboard_rows_of_two() {
    let rows = language_keyboard();
    assert_eq!(rows.len(), 4);
    assert!(rows.iter().all(|r| r.len() == 2));
    assert_eq!(rows[0][0].text, "Turkce");
    assert_eq!(rows[0][0].data, "lang:tr");
    assert_eq!(rows[3][1].data, "lang:mi");
}

#[test]
fn translations_load_and_fall_back() {
    let i18n = I18n::new(&sources()).unwrap();
    assert!(i18n.is_supported("en"));
    assert!(i18n.is_supported("de"));
    assert!(!i18n.is_supported("fr"));
    assert_eq!(i18n.t("de", "welcome", &[]), "Hallo");
    assert_eq!(i18n.t("de", "bye", &[]), "Goodbye");
    assert_eq!(i18n.t("fr", "welcome", &[]), "Hello");
    assert_eq!(i18n.t("en", "missing-key", &[]), "missing-key");
    let greeting = i18n.t("en", "greet", &[("name".to_string(), "Ann".to_string())]);
    assert!(greeting.contains("Ann"));
}

#[test]
fn invalid_translation_sources_are_refused() {
    let bad_code = vec![("not a tag!".to_string(), "a = b\n".to_string())];
    assert!(matches!(I18n::new(&bad_code), Err(I18nError::InvalidLanguage(c)) if c == "not a tag!"));
    let bad_ftl = vec![("en".to_string(), "= no id\n".to_string())];
    assert!(matches!(I18n::new(&bad_ftl), Err(I18nError::InvalidResource(c)) if c == "en"));
    let dup = vec![("en".to_string(), "a = b\na = c\n".to_string())];
    assert!(matches!(I18n::new(&dup), Err(I18nError::ResourceRejected(c)) if c == "en"));
}

#[test]
fn languages_are_normalized() {
    let i18n = I18n::new(&sources()).unwrap();
    assert_eq!(i18n.normalize_language(None), "en");
    assert_eq!(i18n.normalize_language(Some("de-AT")), "de");
    assert_eq!(i18n.normalize_language(Some("DE_ch")), "de");
    assert_eq!(i18n.normalize_language(Some("fr-FR")), "en");
    assert_eq!(i18n.normalize_language(Some("")), "en");
}

#[test]
fn user_language_is_resolved() {
    let i18n = I18n::new(&sources()).unwrap();
    assert_eq!(i18n.resolve_language(false, Some("de".to_string()), Some("de")), "en");
    assert_eq!(i18n.resolve_language(true, Some("de".to_string()), Some("en-US")), "de");
    assert_eq!(i18n.resolve_language(true, Some("xx".to_string()), Some("de-DE")), "de");
    assert_eq!(i18n.resolve_language(true, None, None), "en");
}

#[test]
fn language_names() {
    let i18n = I18n::new(&sources()).unwrap();
    assert_eq!(i18n.language_name("it"), "Italiano");
    assert_eq!(i18n.language_name("mi"), "Te Reo Maori");
    assert_eq!(i18n.language_name("xx"), "English");
}

#[test]
fn translation_choice() {
    assert_eq!(pick_text(Some("a".to_string()), Some("b".to_string()), "k"), "a");
    assert_eq!(pick_text(None, Some("b".to_string()), "k"), "b");
    assert_eq!(pick_text(None, None, "k"), "k");
}

#[test]
fn translations_take_arguments_and_fall_back_in_order() {
    let i18n = I18n::new(&sources()).unwrap();
    let plain = vec![("x".to_string(), "y".to_string())];
    assert_eq!(i18n.t("de", "welcome", &plain), "Hallo");
    assert_eq!(i18n.t("de", "greet", &[("name".to_string(), "Ann".to_string())]), "Hi \u{2068}Ann\u{2069}");
    assert_eq!(i18n.t("xx", "bye", &[]), "Goodbye");
}

#[test]
fn chosen_language_is_named_only_when_supported() {
    let i18n = I18n::new(&sources()).unwrap();
    assert_eq!(i18n.chosen_language_name("de"), Some("Deutsch"));
    assert_eq!(i18n.chosen_language_name("en"), Some("English"));
    assert_eq!(i18n.chosen_language_name("fr"), None);
}

#[test]
fn well_formed_translations_always_load() {
    let all: Vec<(String, String)> = supported_languages()
        .iter()
        .map(|l| (l.code.to_string(), format!("welcome = {}\n-brand = Kiwi\n", l.name)))
        .collect();
    let i18n = I18n::new(&all).unwrap();
    for l in supported_languages() {
        assert!(i18n.is_supported(l.code));
        assert_eq!(i18n.t(l.code, "welcome", &[]), l.name);
    }
    assert_eq!(i18n.normalize_language(None), "en");
    let clash = vec![("en".to_string(), "a = b\n-a = c\n".to_string())];
    assert!(matches!(I18n::new(&clash), Err(I18nError::ResourceRejected(c)) if c == "en"));
}

use i18n::{langid_to_country_code, langid_to_dir, langid_to_flag, langid_to_iso639, Lang, LanguageTag};

#[test]
fn test_if_parsing_from_a_langid_works() {
    let lang = Lang::new(&LanguageTag::parse("en-US").unwrap());
    assert_eq!(lang, Lang { id: "en-US".to_string(), flag: "\u{1F1FA}\u{1F1F8}", dir: "ltr" });
}

#[test]
fn lang_without_region_has_no_flag() {
    let lang = Lang::new(&LanguageTag::parse("ar").unwrap());
    assert_eq!(lang, Lang { id: "ar".to_string(), flag: "", dir: "rtl" });
}

#[test]
fn language_tag_is_canonical() {
    assert_eq!(LanguageTag::parse("hr_hr").unwrap().as_str(), "hr-HR");
    assert_eq!(LanguageTag::parse("EN").unwrap().to_text(), "en");
}

#[test]
fn iso639_takes_the_language_part() {
    assert_eq!(langid_to_iso639("en-US"), "en");
    assert_eq!(langid_to_iso639("pt_BR"), "pt");
    assert_eq!(langid_to_iso639("sr_Latn-RS"), "sr");
    assert_eq!(langid_to_iso639("DE"), "de");
    assert_eq!(langid_to_iso639("EN-us"), "en");
    assert_eq!(langid_to_iso639(""), "");
}

#[test]
fn country_code_takes_the_second_part() {
    assert_eq!(langid_to_country_code("en-US"), Some("US".to_string()));
    assert_eq!(langid_to_country_code("pt_br"), Some("br".to_string()));
    assert_eq!(langid_to_country_code("sr_Latn_RS"), Some("Latn".to_string()));
    assert_eq!(langid_to_country_code("en-"), Some("".to_string()));
    assert_eq!(langid_to_country_code("en"), None);
}

#[test]
fn flag_of_region() {
    assert_eq!(langid_to_flag("en-US"), Some("\u{1F1FA}\u{1F1F8}"));
    assert_eq!(langid_to_flag("hr_hr"), Some("\u{1F1ED}\u{1F1F7}"));
    assert_eq!(langid_to_flag("en-AD"), Some("\u{1F1E6}\u{1F1E9}"));
    assert_eq!(langid_to_flag("en-ZW"), Some("\u{1F1FF}\u{1F1FC}"));
    assert_eq!(langid_to_flag("en-XX"), None);
    assert_eq!(langid_to_flag("en-USA"), None);
    assert_eq!(langid_to_flag("en"), None);
}

#[test]
fn direction_of_language() {
    assert_eq!(langid_to_dir("ar"), "rtl");
    assert_eq!(langid_to_dir("yi"), "rtl");
    assert_eq!(langid_to_dir("en"), "ltr");
    assert_eq!(langid_to_dir("aa"), "ltr");
    assert_eq!(langid_to_dir("zu"), "ltr");
    assert_eq!(langid_to_dir("zh"), "auto");
    assert_eq!(langid_to_dir("ja"), "auto");
    assert_eq!(langid_to_dir("xx"), "auto");
    assert_eq!(langid_to_dir("eng"), "auto");
}

#[test]
fn lang_from_any_name() {
    assert_eq!(Lang::from_name("HR_hr"), Lang { id: "hr-HR".to_string(), flag: "\u{1F1ED}\u{1F1F7}", dir: "ltr" });
    assert_eq!(Lang::from_name("EN"), Lang { id: "en".to_string(), flag: "", dir: "ltr" });
}

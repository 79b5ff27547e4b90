use i18n::{
    attr, langs, load_locales, missing_keys, resource_keys, tr, Error, LanguageTag, LoadIssue, Locales, NoObserver,
    Query, SourceFile,
};

fn tag(s: &str) -> LanguageTag {
    LanguageTag::parse(s).expect("valid language tag")
}

fn file(locale: &str, file_name: &str, content: &str) -> SourceFile {
    SourceFile { locale: locale.to_string(), file_name: file_name.to_string(), content: content.to_string() }
}

#[test]
fn test_from_url_success() {
    let body = br#"{"en-US": "hello-world = Hello, world!", "hr-HR": "hello-world = Bok, svijete!"}"#;
    let locales: Locales<NoObserver> = Locales::from_json(body, tag("en-US"), None).unwrap();
    let q = Query::new("hello-world");
    assert_eq!(locales.query(&tag("en-US"), &q).unwrap().value, "Hello, world!");
    assert_eq!(locales.query(&tag("hr-HR"), &q).unwrap().value, "Bok, svijete!");
    assert_eq!(locales.query(&tag("de-DE"), &q).unwrap().value, "Hello, world!");
}

#[test]
fn json_that_is_not_an_object_of_strings_is_rejected() {
    let r: Result<Locales<NoObserver>, Vec<LoadIssue>> = Locales::from_json(br#"{"en-US": 3}"#, tag("en-US"), None);
    assert_eq!(r.err(), Some(vec![LoadIssue::InvalidFormat]));
    let r: Result<Locales<NoObserver>, Vec<LoadIssue>> = Locales::from_json(b"not json", tag("en-US"), None);
    assert_eq!(r.err(), Some(vec![LoadIssue::InvalidFormat]));
}

#[test]
fn definitions_collect_every_error() {
    let defs = vec![
        ("not a tag!".to_string(), "a = A".to_string()),
        ("en-US".to_string(), "a = A".to_string()),
        ("de".to_string(), "= broken".to_string()),
    ];
    let r: Result<Locales<NoObserver>, Vec<LoadIssue>> = Locales::from_definitions(defs, tag("en-US"), None);
    assert_eq!(
        r.err(),
        Some(vec![
            LoadIssue::Rejected {
                locale: "not a tag!".into(),
                errors: vec![Error::InvalidLanguageTag { tag: "not a tag!".into() }],
            },
            LoadIssue::Rejected { locale: "de".into(), errors: vec![Error::Syntax] },
        ])
    );
}

#[test]
fn resource_keys_lists_messages_and_terms() {
    assert_eq!(
        resource_keys("# comment\nhello = Hi\n-brand = Acme\nbye = Bye\n"),
        Some(vec!["hello".to_string(), "brand".to_string(), "bye".to_string()])
    );
    assert_eq!(resource_keys("= broken"), None);
    assert_eq!(resource_keys(""), Some(vec![]));
}

#[test]
fn missing_keys_compares_files_of_the_same_name() {
    let sets = vec![
        ("main.ftl".to_string(), vec!["a".to_string(), "b".to_string()]),
        ("main.ftl".to_string(), vec!["a".to_string()]),
        ("other.ftl".to_string(), vec!["c".to_string()]),
        ("main.ftl".to_string(), vec!["c".to_string(), "b".to_string()]),
    ];
    assert_eq!(missing_keys(&sets, 0), vec!["c".to_string()]);
    assert_eq!(missing_keys(&sets, 1), vec!["b".to_string(), "c".to_string()]);
    assert_eq!(missing_keys(&sets, 2), Vec::<String>::new());
    assert_eq!(missing_keys(&sets, 3), vec!["a".to_string()]);
}

#[test]
fn load_locales_groups_files_by_locale() {
    let files = vec![
        file("en-US", "main.ftl", "a = A\n"),
        file("hr-HR", "main.ftl", "a = HA\n"),
        file("en-US", "extra.ftl", "b = B\n"),
        file("hr-HR", "extra.ftl", "b = HB\n"),
    ];
    let locales: Locales<NoObserver> = load_locales(files, tag("en-US"), None, true).unwrap();
    assert_eq!(locales.query(&tag("en-US"), &Query::new("b")).unwrap().value, "B");
    assert_eq!(locales.query(&tag("hr-HR"), &Query::new("a")).unwrap().value, "HA");
}

#[test]
fn load_locales_reports_missing_keys_only_when_asked() {
    let files = || vec![file("en-US", "main.ftl", "a = A\nb = B\n"), file("hr-HR", "main.ftl", "a = HA\n")];
    let r: Result<Locales<NoObserver>, Vec<LoadIssue>> = load_locales(files(), tag("en-US"), None, true);
    assert_eq!(
        r.err(),
        Some(vec![LoadIssue::MissingKeys {
            locale: "hr-HR".into(),
            file_name: "main.ftl".into(),
            missing: vec!["b".into()],
        }])
    );
    let r: Result<Locales<NoObserver>, Vec<LoadIssue>> = load_locales(files(), tag("en-US"), None, false);
    assert!(r.is_ok());
}

#[test]
fn load_locales_reports_unparsable_and_rejected_files() {
    let r: Result<Locales<NoObserver>, Vec<LoadIssue>> =
        load_locales(vec![file("en-US", "main.ftl", "= broken")], tag("en-US"), None, true);
    assert_eq!(r.err(), Some(vec![LoadIssue::Unparsable { locale: "en-US".into(), file_name: "main.ftl".into() }]));
    let r: Result<Locales<NoObserver>, Vec<LoadIssue>> = load_locales(
        vec![file("en-US", "a.ftl", "x = 1\n"), file("en-US", "b.ftl", "x = 2\n")],
        tag("en-US"),
        None,
        false,
    );
    assert_eq!(
        r.err(),
        Some(vec![LoadIssue::Rejected { locale: "en-US".into(), errors: vec![Error::DuplicateId { id: "x".into() }] }])
    );
}

#[test]
fn tr_stands_in_with_the_id_on_failure() {
    let mut locales: Locales<NoObserver> = Locales::new(tag("en-US"), None);
    locales.add_locale("en-US", vec!["a = A".to_string()]).unwrap();
    let msg = tr(&locales, &tag("en-US"), &Query::new("missing"));
    assert_eq!(msg.id, "missing");
    assert_eq!(msg.value, "missing");
    assert!(msg.attrs.is_empty());
    assert_eq!(tr(&locales, &tag("en-US"), &Query::new("a")).value, "A");
}

#[test]
fn attr_stands_in_with_the_name_on_failure() {
    let mut locales: Locales<NoObserver> = Locales::new(tag("en-US"), None);
    locales.add_locale("en-US", vec!["b = B\n    .t = Hi { $x }\n".to_string()]).unwrap();
    let mut msg = tr(&locales, &tag("en-US"), &Query::new("b"));
    assert_eq!(attr(&locales, &mut msg, "nope", None), "nope");
    assert_eq!(attr(&locales, &mut msg, "t", None), "t");
    let mut args = i18n::Args::new();
    args.set_number("x", 7);
    assert_eq!(attr(&locales, &mut msg, "t", Some(&args)), "Hi \u{2068}7\u{2069}");
}

#[test]
fn langs_describes_every_name() {
    let l = langs(&vec!["hr_hr".to_string(), "xx".to_string(), "ar".to_string()]);
    assert_eq!(l.len(), 3);
    assert_eq!(l[0].id, "hr-HR");
    assert_eq!(l[0].flag, "\u{1F1ED}\u{1F1F7}");
    assert_eq!(l[1].id, "xx");
    assert_eq!(l[1].dir, "auto");
    assert_eq!(l[2].dir, "rtl");
}

#[test]
fn load_locales_rejects_invalid_locale_names() {
    let r: Result<Locales<NoObserver>, Vec<LoadIssue>> =
        load_locales(vec![file("not a tag!", "main.ftl", "a = A\n")], tag("en-US"), None, true);
    assert_eq!(
        r.err(),
        Some(vec![LoadIssue::Rejected {
            locale: "not a tag!".into(),
            errors: vec![Error::InvalidLanguageTag { tag: "not a tag!".into() }],
        }])
    );
}

#[test]
fn load_locales_lists_every_bad_file() {
    let files = vec![
        file("en-US", "a.ftl", "= broken"),
        file("en-US", "b.ftl", "x = 1\n"),
        file("hr-HR", "a.ftl", "= also broken"),
    ];
    let r: Result<Locales<NoObserver>, Vec<LoadIssue>> = load_locales(files, tag("en-US"), None, true);
    assert_eq!(
        r.err(),
        Some(vec![
            LoadIssue::Unparsable { locale: "en-US".into(), file_name: "a.ftl".into() },
            LoadIssue::Unparsable { locale: "hr-HR".into(), file_name: "a.ftl".into() },
        ])
    );
}

#[test]
fn observer_is_kept_by_loading() {
    let files = vec![file("en-US", "main.ftl", "a = A\n")];
    let locales: Locales<NoObserver> = load_locales(files, tag("en-US"), Some(NoObserver), true).unwrap();
    assert!(locales.fallback_present());
}

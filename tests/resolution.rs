use i18n::{Args, Error, ErrorObserver, LanguageTag, Locale, Locales, NoObserver, Query};
use std::cell::RefCell;
use std::rc::Rc;

fn tag(s: &str) -> LanguageTag {
    LanguageTag::parse(s).expect("valid language tag")
}

fn registry(texts: &[&str]) -> Locales<NoObserver> {
    let mut locales = Locales::new(tag("en-US"), None);
    locales
        .add_locale("en-US", texts.iter().map(|t| t.to_string()).collect())
        .expect("en-US loads");
    locales
}

#[test]
fn greeting_resolves_directly_and_through_fallback() {
    let locales = registry(&["greet = Hello, {$name}!"]);
    let query = Query::new("greet").with_arg("name", "Ann");
    let direct = locales.query(&tag("en-US"), &query).unwrap();
    assert_eq!(direct.id, "greet");
    assert_eq!(direct.value, "Hello, \u{2068}Ann\u{2069}!");
    assert!(direct.attrs.is_empty());
    let fallback = locales.query(&tag("fr-FR"), &query).unwrap();
    assert_eq!(fallback.id, direct.id);
    assert_eq!(fallback.value, direct.value);
    assert!(fallback.attrs.is_empty());
}

#[test]
fn absent_language_fails_like_fallback() {
    let locales = registry(&["greet = Hello"]);
    let query = Query::new("nope");
    let expected = Err(vec![Error::MessageNotFound { id: "nope".into() }]);
    assert_eq!(locales.query(&tag("en-US"), &query).map(|m| m.value), expected.clone());
    assert_eq!(locales.query(&tag("de"), &query).map(|m| m.value), expected);
}

#[test]
fn registered_language_is_preferred_over_fallback() {
    let mut locales = registry(&["greet = Hello"]);
    locales.add_locale("hr_hr", vec!["greet = Bok".to_string()]).unwrap();
    assert_eq!(locales.query(&tag("hr-HR"), &Query::new("greet")).unwrap().value, "Bok");
    assert_eq!(locales.query(&tag("en-US"), &Query::new("greet")).unwrap().value, "Hello");
}

#[test]
fn adding_a_locale_again_replaces_it() {
    let mut locales = registry(&["greet = Hello"]);
    locales.add_locale("en-US", vec!["greet = Hi".to_string()]).unwrap();
    assert_eq!(locales.query(&tag("en-US"), &Query::new("greet")).unwrap().value, "Hi");
}

#[test]
fn message_without_placeable_ignores_arguments() {
    let locales = registry(&["plain = Just text"]);
    let bare = locales.query(&tag("en-US"), &Query::new("plain")).unwrap();
    let with_args = locales
        .query(&tag("en-US"), &Query::new("plain").with_arg("unused", "x").with_number_arg("n", 3))
        .unwrap();
    assert_eq!(bare.value, "Just text");
    assert_eq!(with_args.value, "Just text");
}

#[test]
fn deferred_attribute_is_no_error_but_explicit_missing_variable_is() {
    let locales = registry(&["btn = Submit\n    .aria-label = Submit the {$form} form\n"]);
    let lazy = locales.query(&tag("en-US"), &Query::new("btn")).unwrap();
    assert_eq!(lazy.value, "Submit");
    assert_eq!(lazy.attr("aria-label").unwrap().value, None);

    let explicit = locales.query(&tag("en-US"), &Query::new("btn").with_attr_arg("aria-label", "other", "x"));
    assert_eq!(explicit.map(|m| m.value), Err(vec![Error::UndefinedVariable { id: "form".into() }]));
}

#[test]
fn attribute_with_arguments_resolves() {
    let locales = registry(&["btn = Submit\n    .aria-label = Submit the {$form} form\n"]);
    let msg = locales
        .query(&tag("en-US"), &Query::new("btn").with_attr_arg("aria-label", "form", "signup"))
        .unwrap();
    assert_eq!(msg.attr("aria-label").unwrap().value.as_deref(), Some("Submit the \u{2068}signup\u{2069} form"));
}

#[test]
fn unknown_attribute_is_reported_even_when_value_resolves() {
    let locales = registry(&["btn = Submit"]);
    let r = locales.query(&tag("en-US"), &Query::new("btn").with_attr_arg("title", "x", "y"));
    assert_eq!(
        r.map(|m| m.value),
        Err(vec![Error::AttributeNotFound { message_id: "btn".into(), attr_id: "title".into() }])
    );
}

#[test]
fn lazy_round_trip_matches_direct_query() {
    let source = "btn = Submit\n    .aria-label = Submit the {$form} form\n";
    let locales = registry(&[source]);
    let direct = locales
        .query(&tag("en-US"), &Query::new("btn").with_attr_arg("aria-label", "form", "signup"))
        .unwrap();
    let expected = direct.attr("aria-label").unwrap().value.clone().unwrap();

    let mut lazy = locales.query(&tag("en-US"), &Query::new("btn")).unwrap();
    let handle = &mut lazy.attrs[0].1;
    let mut args = Args::new();
    args.set("form", "signup");
    assert_eq!(handle.query(Some(&args)), Ok(expected.clone()));
    assert_eq!(handle.query(None), Ok(expected.clone()));
    assert_eq!(handle.value, Some(expected));
}

#[test]
fn cached_attribute_ignores_new_arguments() {
    let locales = registry(&["btn = Submit\n    .title = Fixed\n"]);
    let mut msg = locales.query(&tag("en-US"), &Query::new("btn")).unwrap();
    let mut args = Args::new();
    args.set("x", "y");
    assert_eq!(msg.attrs[0].1.query(Some(&args)), Ok("Fixed".to_string()));
}

#[test]
fn message_without_value_gives_placeholder() {
    let locales = registry(&["menu =\n    .title = Menu\n"]);
    let msg = locales.query(&tag("en-US"), &Query::new("menu")).unwrap();
    assert_eq!(msg.value, "<menu>");
    assert_eq!(msg.attrs.len(), 1);
    assert_eq!(msg.attrs[0].0, "title");
}

#[test]
fn errors_of_value_and_attributes_accumulate() {
    let locales = registry(&["m = { -nothing }\n    .a = { missing }\n    .b = { $v }\n"]);
    let r = locales.query(&tag("en-US"), &Query::new("m").with_attr_arg("b", "w", "1").with_attr_arg("zz", "k", "v"));
    assert_eq!(
        r.map(|m| m.value),
        Err(vec![
            Error::UndefinedTerm { id: "nothing".into(), attribute: None },
            Error::UndefinedMessage { id: "missing".into(), attribute: None },
            Error::UndefinedVariable { id: "v".into() },
            Error::AttributeNotFound { message_id: "m".into(), attr_id: "zz".into() },
        ])
    );
}

#[test]
fn cyclic_reference_is_reported() {
    let locales = registry(&["loop = { loop }"]);
    let r = locales.query(&tag("en-US"), &Query::new("loop"));
    assert_eq!(r.map(|m| m.value), Err(vec![Error::CyclicReference]));
}

#[test]
fn reference_to_valueless_message_is_reported() {
    let locales = registry(&["menu =\n    .title = Menu\nuse = { menu }\n"]);
    let r = locales.query(&tag("en-US"), &Query::new("use"));
    assert_eq!(r.map(|m| m.value), Err(vec![Error::NoValue { id: "menu".into() }]));
}

#[test]
fn numeric_argument_is_formatted() {
    let locales = registry(&["count = You have { $n } items"]);
    let msg = locales.query(&tag("en-US"), &Query::new("count").with_number_arg("n", 5)).unwrap();
    assert_eq!(msg.value, "You have \u{2068}5\u{2069} items");
}

#[test]
fn later_argument_replaces_earlier() {
    let locales = registry(&["greet = Hello, {$name}!"]);
    let msg = locales
        .query(&tag("en-US"), &Query::new("greet").with_arg("name", "Ann").with_arg("name", "Bo"))
        .unwrap();
    assert_eq!(msg.value, "Hello, \u{2068}Bo\u{2069}!");
}

#[test]
fn invalid_language_tag_is_rejected() {
    assert!(LanguageTag::parse("not a tag!").is_none());
    let r: Result<Locales<NoObserver>, Vec<i18n::LoadIssue>> =
        Locales::from_definitions(vec![("not a tag!".to_string(), "x = y".to_string())], tag("en-US"), None);
    assert_eq!(
        r.err(),
        Some(vec![i18n::LoadIssue::Rejected {
            locale: "not a tag!".into(),
            errors: vec![Error::InvalidLanguageTag { tag: "not a tag!".into() }],
        }])
    );
}

#[test]
fn duplicate_ids_across_resources_are_rejected() {
    let mut locales = registry(&["greet = Hello"]);
    let r = locales.add_locale("de", vec!["greet = Hallo".to_string(), "greet = Servus".to_string()]);
    assert_eq!(r, Err(vec![Error::DuplicateId { id: "greet".into() }]));
    assert_eq!(
        Locale::check(&tag("de"), &vec!["a = 1".to_string(), "-a = 2".to_string()]),
        Err(vec![Error::DuplicateId { id: "a".into() }])
    );
    assert_eq!(Locale::check(&tag("de"), &vec!["a = 1".to_string(), "b = 2".to_string()]), Ok(()));
}

#[test]
fn syntax_error_is_rejected() {
    let mut locales = registry(&["greet = Hello"]);
    assert_eq!(locales.add_locale("de", vec!["= broken".to_string()]), Err(vec![Error::Syntax]));
}

#[test]
fn locale_query_reports_missing_message_alone() {
    let locale = Locale::new(&tag("en-US"), vec!["a = A".to_string()]);
    let r = locale.query(&Query::new("b").with_attr_arg("x", "y", "z"));
    assert_eq!(r.map(|m| m.value), Err(vec![Error::MessageNotFound { id: "b".into() }]));
}

#[test]
fn handle_reports_missing_attribute() {
    let locales = registry(&["btn = Submit\n    .title = T\n"]);
    let msg = locales.query(&tag("en-US"), &Query::new("btn")).unwrap();
    let mut handle = i18n::AttrCache {
        entry_id: "btn".into(),
        attr_id: "nope".into(),
        value: None,
        store: msg.attrs[0].1.store.share(),
    };
    assert_eq!(
        handle.query(None),
        Err(vec![Error::AttributeNotFound { message_id: "btn".into(), attr_id: "nope".into() }])
    );
    let mut gone = i18n::AttrCache { entry_id: "gone".into(), attr_id: "t".into(), value: None, store: msg.attrs[0].1.store.share() };
    assert_eq!(gone.query(None), Err(vec![Error::MessageNotFound { id: "gone".into() }]));
}

struct Recorder {
    seen: Rc<RefCell<Vec<Vec<Error>>>>,
}

impl ErrorObserver for Recorder {
    fn on_error(&self, errors: &[Error]) {
        self.seen.borrow_mut().push(errors.to_vec());
    }
}

#[test]
fn observer_sees_failures_only() {
    let seen = Rc::new(RefCell::new(Vec::new()));
    let mut locales = Locales::new(tag("en-US"), Some(Recorder { seen: seen.clone() }));
    locales.add_locale("en-US", vec!["a = A".to_string()]).unwrap();
    assert!(locales.query(&tag("en-US"), &Query::new("a")).is_ok());
    assert!(seen.borrow().is_empty());
    let r = locales.query(&tag("en-US"), &Query::new("b"));
    assert_eq!(r.map(|m| m.value), Err(vec![Error::MessageNotFound { id: "b".into() }]));
    assert_eq!(*seen.borrow(), vec![vec![Error::MessageNotFound { id: "b".into() }]]);
    locales.call_on_error(&[Error::Syntax]);
    assert_eq!(seen.borrow().len(), 2);
}

#[test]
fn query_builder_keeps_arguments() {
    let mut args = Args::new();
    args.set("a", "1");
    args.set_number("b", 2);
    let q = Query::new("id").with_fallback(true).with_attr_arg("x", "k", "v").with_attr_arg("x", "k2", "v2");
    assert_eq!(q.id(), "id");
    assert_eq!(q.attr_arg_count(), 1);
    assert_eq!(q.attr_arg_name(0), "x");
    assert!(q.attr_args_for("x").is_some());
    assert!(q.attr_args_for("y").is_none());
}

#[test]
fn handles_are_equal_by_message_and_attribute() {
    let locales = registry(&["btn = Submit\n    .title = T { $x }\n"]);
    let lazy = locales.query(&tag("en-US"), &Query::new("btn")).unwrap();
    let eager = locales.query(&tag("en-US"), &Query::new("btn").with_attr_arg("title", "x", "1")).unwrap();
    assert_eq!(lazy.attrs[0].1.value, None);
    assert!(eager.attrs[0].1.value.is_some());
    assert!(lazy.attrs[0].1 == eager.attrs[0].1);
    assert!(lazy == eager);
    let other = i18n::AttrCache { entry_id: "btn".into(), attr_id: "other".into(), value: None, store: lazy.attrs[0].1.store.share() };
    assert!(lazy.attrs[0].1 != other);
}

#[test]
fn language_tags_compare_by_canonical_text() {
    assert!(tag("hr_hr") == tag("hr-HR"));
    assert!(tag("en-US") != tag("en-GB"));
}

#[test]
fn observer_sees_missing_attribute() {
    let seen = Rc::new(RefCell::new(Vec::new()));
    let mut locales = Locales::new(tag("en-US"), Some(Recorder { seen: seen.clone() }));
    locales.add_locale("en-US", vec!["b = B".to_string()]).unwrap();
    let mut msg = i18n::tr(&locales, &tag("en-US"), &Query::new("b"));
    assert_eq!(i18n::attr(&locales, &mut msg, "nope", None), "nope");
    assert_eq!(
        *seen.borrow(),
        vec![vec![Error::AttributeNotFound { message_id: "b".into(), attr_id: "nope".into() }]]
    );
}

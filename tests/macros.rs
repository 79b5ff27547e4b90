use i18n::{AttrCache, Error, LanguageTag, Locales, LocalizedDisplay, Message, NoObserver, Query};

const EN_US: &str = "welcome-back = Welcome back, { $username }!
foo-a = English A
foo-b = English B
foo-c = English C
login-btn =
    .idle = Login
    .progress = Logging in...
    .finished-ok = Logged in
    .finished-err = Failed
    .aria-label = A login button
    .attr-arg = This is an attribute argument with arbitrary text: { $text }
";

const HR_HR: &str = "welcome-back = Dobrodosli natrag, { $username }!
foo-a = Croatian A
foo-b = Croatian B
foo-c = Croatian C
login-btn =
    .idle = Prijava
    .progress = Prijavljivanje...
    .finished-ok = Prijavljeni ste
    .finished-err = Neuspjeh
    .aria-label = Gumb za prijavu
    .attr-arg = Ovo je argument atributa s proizvoljnim tekstom: { $text }
";

fn tag(s: &str) -> LanguageTag {
    LanguageTag::parse(s).expect("valid language tag")
}

fn locales() -> Locales<NoObserver> {
    let mut locales = Locales::new(tag("en-US"), None);
    locales.add_locale("en-US", vec![EN_US.to_string()]).expect("en-US loads");
    locales.add_locale("hr-HR", vec![HR_HR.to_string()]).expect("hr-HR loads");
    locales
}

fn attr_values(msg: &Message) -> Vec<(String, String, String, Option<String>)> {
    msg.attrs
        .iter()
        .map(|(name, h): &(String, AttrCache)| (name.clone(), h.entry_id.clone(), h.attr_id.clone(), h.value.clone()))
        .collect()
}

fn expected(attr_arg: Option<&str>) -> Vec<(String, String, String, Option<String>)> {
    [
        ("idle", Some("Login")),
        ("progress", Some("Logging in...")),
        ("finished-ok", Some("Logged in")),
        ("finished-err", Some("Failed")),
        ("aria-label", Some("A login button")),
        ("attr-arg", attr_arg),
    ]
    .iter()
    .map(|(a, v)| (a.to_string(), "login-btn".to_string(), a.to_string(), v.map(|s| s.to_string())))
    .collect()
}

enum Foo {
    A,
    B,
    C,
}

struct Localized<'a> {
    foo: Foo,
    locales: &'a Locales<NoObserver>,
}

impl LocalizedDisplay for Localized<'_> {
    fn localize(&self, lang: &LanguageTag) -> Message {
        match self.foo {
            Foo::A => self.locales.query(lang, &Query::new("foo-a")).unwrap(),
            Foo::B => self.locales.query(lang, &Query::new("foo-b")).unwrap(),
            Foo::C => self.locales.query(lang, &Query::new("foo-c")).unwrap(),
        }
    }
}

#[test]
fn test_if_type_works() {
    let locales = locales();
    let a = Localized { foo: Foo::A, locales: &locales };

    let res = a.localize(&tag("en-US"));
    assert_eq!(res.value, "English A");

    let res = a.localize(&tag("hr-hr"));
    assert_eq!(res.value, "Croatian A");
}

#[test]
fn test_if_langs_macro_works() {
    let langs = i18n::langs(&vec!["en-US".to_string(), "hr-HR".to_string()]);
    println!("{langs:?}");
    assert_eq!(langs.len(), 2);
}

#[test]
fn test_if_failures_are_reported() {}

#[test]
fn test_if_arguments_work() {
    let locales = locales();
    let lang = tag("en-US");
    let query = Query::new("welcome-back").with_arg("username", "John");
    let msg = locales.query(&lang, &query).unwrap();
    assert_eq!(msg.id, "welcome-back");
    assert_eq!(msg.value, "Welcome back, \u{2068}John\u{2069}!");
    assert!(msg.attrs.is_empty());
}

#[test]
fn test_if_attributes_work() {
    let locales = locales();
    let lang = tag("en-US");
    let query = Query::new("login-btn").with_attr_arg("attr-arg", "text", "this is arbitrary text");
    let msg = locales.query(&lang, &query).unwrap();
    assert_eq!(msg.id, "login-btn");
    assert_eq!(msg.value, "<login-btn>");
    assert_eq!(
        attr_values(&msg),
        expected(Some("This is an attribute argument with arbitrary text: \u{2068}this is arbitrary text\u{2069}"))
    );
}

#[test]
fn test_if_tr_macro_works() {
    let locales = locales();
    let lang = tag("en-US");
    let msg = i18n::tr(&locales, &lang, &Query::new("login-btn").with_attr_arg("attr-arg", "text", "this is arbitrary text"));
    assert_eq!(msg.id, "login-btn");
    assert_eq!(msg.value, "<login-btn>");
    assert_eq!(
        attr_values(&msg),
        expected(Some("This is an attribute argument with arbitrary text: \u{2068}this is arbitrary text\u{2069}"))
    );
}

#[test]
fn test_if_lazily_queried_attr_works() {
    let locales = locales();
    let lang = tag("en-US");
    let query = Query::new("login-btn");
    let mut msg = locales.query(&lang, &query).unwrap();
    assert_eq!(msg.id, "login-btn");
    assert_eq!(msg.value, "<login-btn>");
    assert_eq!(attr_values(&msg), expected(None));

    // test if passing no arg when there is one fails
    let attr = &mut msg.attrs.iter_mut().find(|(name, _)| name == "attr-arg").expect("should exist").1;
    assert_eq!(attr.query(None), Err(vec![Error::UndefinedVariable { id: "text".into() }]));

    let mut args = i18n::Args::new();
    args.set("text", "this is arbitrary text");
    assert_eq!(
        attr.query(Some(&args)),
        Ok("This is an attribute argument with arbitrary text: \u{2068}this is arbitrary text\u{2069}".into())
    );
}

#[test]
fn test_if_attr_macro_works() {
    let locales = locales();
    let lang = tag("en-US");
    let mut msg = i18n::tr(&locales, &lang, &Query::new("login-btn"));
    let mut args = i18n::Args::new();
    args.set("text", "this is arbitrary text");
    let attr = i18n::attr(&locales, &mut msg, "attr-arg", Some(&args));
    assert_eq!(attr, "This is an attribute argument with arbitrary text: \u{2068}this is arbitrary text\u{2069}");
}

use crate::catalog::LoadIssue;
use crate::error::Error;
use crate::args::Args;
use crate::locale::{answers, opt_text, resolves_to, AttrCache, Locale, Message};
use crate::store::opt_args;
use crate::query::Query;
use crate::store::{load_failure, texts_load, texts_view, PatternStore};
use crate::tag::{canonical_langid, LanguageTag};
use vstd::prelude::*;

verus! {

/// Something to be shown the errors of each failed query, for logging or
/// metrics. It cannot change what the query returns.
pub trait ErrorObserver {
    fn on_error(&self, errors: &[Error]);
}

/// The members of `body` read as a JSON object whose values are strings,
/// ordered by name; `None` where `body` is no such object.
pub uninterp spec fn json_string_map(body: Seq<u8>) -> Option<Seq<(Seq<char>, Seq<char>)>>;

pub open spec fn pairs_view(v: Seq<(String, String)>) -> Seq<(Seq<char>, Seq<char>)> {
    v.map_values(|p: (String, String)| (p.0@, p.1@))
}

pub open spec fn opt_pairs_view(r: Option<Vec<(String, String)>>) -> Option<Seq<(Seq<char>, Seq<char>)>> {
    match r {
        Some(v) => Some(pairs_view(v@)),
        None => None,
    }
}

/// Relies on `serde_json::from_slice` into a `BTreeMap<String, String>`:
/// the members of a JSON object of strings, in the order of their names.
#[verifier::external_body]
fn decode_definitions(body: &[u8]) -> (r: Option<Vec<(String, String)>>)
    ensures
        opt_pairs_view(r) == json_string_map(body@),
{
    serde_json::from_slice::<std::collections::BTreeMap<String, String>>(body).ok().map(|m| m.into_iter().collect())
}

/// Whether definition `d` loads: its tag is valid and its text merges into a store.
pub open spec fn def_loads(d: (Seq<char>, Seq<char>)) -> bool {
    canonical_langid(d.0) is Some && texts_load(seq![d.1])
}

/// Whether every definition of `defs` loads.
pub open spec fn defs_load(defs: Seq<(Seq<char>, Seq<char>)>) -> bool {
    forall|i: int| 0 <= i < defs.len() ==> #[trigger] def_loads(defs[i])
}

/// The definitions of `defs` that do not load, in order.
pub open spec fn bad_defs(defs: Seq<(Seq<char>, Seq<char>)>) -> Seq<(Seq<char>, Seq<char>)>
    decreases defs.len(),
{
    if defs.len() == 0 {
        Seq::empty()
    } else {
        bad_defs(defs.drop_last()) + if def_loads(defs.last()) {
            Seq::empty()
        } else {
            seq![defs.last()]
        }
    }
}

/// Whether `issue` rejects the definition `d`, with the reason: its invalid
/// tag, or why its text does not load.
pub open spec fn rejects_def(issue: LoadIssue, d: (Seq<char>, Seq<char>)) -> bool {
    issue matches LoadIssue::Rejected { locale, errors } && locale@ == d.0 && if canonical_langid(d.0) is None {
        errors@.len() == 1 && reports_tag(errors@[0], d.0)
    } else {
        load_failure(errors@, seq![d.1])
    }
}

/// Whether `e` holds one issue for each definition of `defs` that does not
/// load, in order.
pub open spec fn reports_bad_defs(e: Seq<LoadIssue>, defs: Seq<(Seq<char>, Seq<char>)>) -> bool {
    e.len() == bad_defs(defs).len() && forall|x: int| 0 <= x < e.len() ==> rejects_def(#[trigger] e[x], bad_defs(defs)[x])
}

/// Whether no later definition of `defs` than the one at `i` has the same tag.
pub open spec fn last_for_tag(defs: Seq<(Seq<char>, Seq<char>)>, i: int) -> bool {
    forall|j: int| i < j < defs.len() ==> canonical_langid((#[trigger] defs[j]).0) != canonical_langid(defs[i].0)
}

/// Whether the locale of the tag of definition `i` holds exactly its text.
pub open spec fn holds_definition<O: ErrorObserver>(reg: Locales<O>, defs: Seq<(Seq<char>, Seq<char>)>, i: int) -> bool {
    canonical_langid(defs[i].0) matches Some(t) && (reg.lookup(t) matches Some(s) && s.locale() == t
        && s.sources() == seq![defs[i].1])
}

/// Whether every tag with a locale in `reg` is the tag of some definition.
pub open spec fn only_defined_tags<O: ErrorObserver>(reg: Locales<O>, defs: Seq<(Seq<char>, Seq<char>)>) -> bool {
    forall|t: Seq<char>| reg.lookup(t) is Some ==> exists|i: int| 0 <= i < defs.len() && canonical_langid((#[trigger] defs[i]).0) == Some(t)
}

/// Whether `e` rejects the language tag `tag`.
pub open spec fn reports_tag(e: Error, tag: Seq<char>) -> bool {
    e matches Error::InvalidLanguageTag { tag: t } && t@ == tag
}

/// A type that can be shown as a message in a given language.
pub trait LocalizedDisplay {
    fn localize(&self, lang: &LanguageTag) -> Message;
}

/// An observer that ignores every error.
pub struct NoObserver;

impl ErrorObserver for NoObserver {
    fn on_error(&self, errors: &[Error]) {
    }
}

/// All loaded translation data: one locale per language tag, a fallback
/// language, and an optional observer of failed queries.
pub struct Locales<O: ErrorObserver> {
    locales: Vec<(String, Locale)>,
    fallback_lang: String,
    on_error: Option<O>,
}

impl<O: ErrorObserver> Locales<O> {
    /// The language tags with a locale, with each locale's store.
    pub closed spec fn entries(&self) -> Seq<(Seq<char>, PatternStore)> {
        self.locales@.map_values(|p: (String, Locale)| (p.0@, p.1.store_spec()))
    }

    /// The observer of failed queries.
    pub closed spec fn observer(&self) -> Option<O> {
        self.on_error
    }

    /// The fallback language tag.
    pub closed spec fn fallback(&self) -> Seq<char> {
        self.fallback_lang@
    }

    /// No language tag has two locales.
    pub open spec fn wf(&self) -> bool {
        forall|i: int, j: int|
            0 <= i < j < self.entries().len() ==> (#[trigger] self.entries()[i]).0 != (#[trigger] self.entries()[j]).0
    }

    /// The store of the locale for `tag`, if there is one.
    pub open spec fn lookup(&self, tag: Seq<char>) -> Option<PatternStore> {
        if exists|i: int| 0 <= i < self.entries().len() && (#[trigger] self.entries()[i]).0 == tag {
            let i = choose|i: int| 0 <= i < self.entries().len() && (#[trigger] self.entries()[i]).0 == tag;
            Some(self.entries()[i].1)
        } else {
            None
        }
    }

    /// Whether the fallback language has a locale, as every query needs.
    pub open spec fn has_fallback(&self) -> bool {
        self.lookup(self.fallback()) is Some
    }

    /// The store that a query for `tag` is resolved against: that of `tag`'s
    /// locale, else that of the fallback language.
    pub open spec fn route(&self, tag: Seq<char>) -> PatternStore {
        match self.lookup(tag) {
            Some(s) => s,
            None => self.lookup(self.fallback()).unwrap(),
        }
    }

    /// Whether this collection is `before` with the locale of `t` set to a
    /// store for `t` over the resources `texts`.
    pub open spec fn installed(&self, before: Locales<O>, t: Seq<char>, texts: Seq<Seq<char>>) -> bool {
        &&& (self.lookup(t) matches Some(s) && s.locale() == t && s.sources() == texts)
        &&& forall|u: Seq<char>| u != t ==> self.lookup(u) == before.lookup(u)
    }

    /// An empty collection with `fallback_lang` as its fallback language.
    pub fn new(fallback_lang: LanguageTag, on_error: Option<O>) -> (r: Locales<O>)
        ensures
            r.wf(),
            r.entries().len() == 0,
            r.fallback() == fallback_lang@,
            r.observer() == on_error,
    {
        let r = Locales { locales: Vec::new(), fallback_lang: fallback_lang.to_text(), on_error };
        proof {
            assert(r.entries().len() == 0);
        }
        r
    }

    /// Under `wf`, the store found for the tag at index `i` is the one stored there.
    proof fn lemma_lookup_at(&self, i: int)
        requires
            self.wf(),
            0 <= i < self.entries().len(),
        ensures
            self.lookup(self.entries()[i].0) == Some(self.entries()[i].1),
    {
        let t = self.entries()[i].0;
        assert(0 <= i < self.entries().len() && self.entries()[i].0 == t);
        let j = choose|j: int| 0 <= j < self.entries().len() && (#[trigger] self.entries()[j]).0 == t;
        if j < i {
            assert(self.entries()[j].0 != self.entries()[i].0);
        } else if i < j {
            assert(self.entries()[i].0 != self.entries()[j].0);
        }
    }

    /// The index of the locale for the tag with text `tag`.
    fn find(&self, tag: &String) -> (r: Option<usize>)
        requires
            self.wf(),
        ensures
            r matches Some(i) ==> i < self.entries().len() && self.entries()[i as int].0 == tag@
                && self.lookup(tag@) == Some(self.entries()[i as int].1),
            r is None ==> self.lookup(tag@) is None,
    {
        let mut i: usize = 0;
        while i < self.locales.len()
            invariant
                self.wf(),
                i <= self.locales@.len(),
                forall|j: int| 0 <= j < i ==> (#[trigger] self.entries()[j]).0 != tag@,
            decreases self.locales@.len() - i,
        {
            proof {
                assert(self.entries()[i as int].0 == self.locales@[i as int].0@);
            }
            if self.locales[i].0.eq(tag) {
                proof {
                    self.lemma_lookup_at(i as int);
                }
                return Some(i);
            }
            i = i + 1;
        }
        None
    }

    /// Whether `lang` has a locale.
    pub fn has_locale(&self, lang: &LanguageTag) -> (r: bool)
        requires
            self.wf(),
        ensures
            r == self.lookup(lang@) is Some,
    {
        self.find(&lang.to_text()).is_some()
    }

    /// Whether the fallback language has a locale, as every query needs.
    pub fn fallback_present(&self) -> (r: bool)
        requires
            self.wf(),
        ensures
            r == self.has_fallback(),
    {
        self.find(&self.fallback_lang).is_some()
    }

    /// Adds the resources parsed from `texts` as the locale of the valid
    /// language tag `lang_str`, replacing any earlier locale of the same tag.
    /// Fails, leaving the collection as it was, where a text does not parse
    /// or two texts define the same id.
    pub fn add_locale(&mut self, lang_str: &str, texts: Vec<String>) -> (r: Result<(), Vec<Error>>)
        requires
            old(self).wf(),
            canonical_langid(lang_str@) is Some,
        ensures
            final(self).wf(),
            final(self).fallback() == old(self).fallback(),
            final(self).observer() == old(self).observer(),
            r is Ok <==> texts_load(texts_view(texts@)),
            r matches Err(e) ==> load_failure(e@, texts_view(texts@)) && final(self).entries() == old(self).entries(),
            r is Ok ==> final(self).installed(*old(self), canonical_langid(lang_str@).unwrap(), texts_view(texts@)),
    {
        let tag = match LanguageTag::parse(lang_str) {
            Some(tag) => tag,
            None => {
                proof {
                    assert(false);
                }
                return Ok(());
            },
        };
        if let Err(e) = Locale::check(&tag, &texts) {
            return Err(e);
        }
        let locale = Locale::new(&tag, texts);
        let key = tag.to_text();
        let ghost old_self = *self;
        match self.find(&key) {
            Some(i) => {
                self.locales.set(i, (key, locale));
                proof {
                    assert forall|a: int, b: int| 0 <= a < b < self.entries().len() implies (#[trigger] self.entries()[a]).0 != (#[trigger] self.entries()[b]).0 by {
                        assert(self.entries()[a].0 == old_self.entries()[a].0);
                        assert(self.entries()[b].0 == old_self.entries()[b].0);
                    }
                    self.lemma_lookup_at(i as int);
                    self.lemma_lookup_others(old_self, i as int, tag@);
                }
            },
            None => {
                self.locales.push((key, locale));
                proof {
                    let n = old_self.entries().len() as int;
                    assert forall|a: int, b: int| 0 <= a < b < self.entries().len() implies (#[trigger] self.entries()[a]).0 != (#[trigger] self.entries()[b]).0 by {
                        assert(self.entries()[a] == old_self.entries()[a]);
                        if b < n {
                            assert(self.entries()[b] == old_self.entries()[b]);
                        } else {
                            assert(0 <= a < old_self.entries().len() && old_self.entries()[a].0 == self.entries()[a].0);
                        }
                    }
                    self.lemma_lookup_at(n);
                    self.lemma_lookup_others(old_self, n, tag@);
                }
            },
        }
        Ok(())
    }

    /// After writing entry `i` with tag `t` (in place or at the end), every other tag finds what it found before.
    proof fn lemma_lookup_others(&self, before: Locales<O>, i: int, t: Seq<char>)
        requires
            self.wf(),
            before.wf(),
            0 <= i < self.entries().len(),
            self.entries()[i].0 == t,
            self.entries().len() == before.entries().len() || (self.entries().len() == before.entries().len() + 1
                && i == before.entries().len()),
            forall|j: int| 0 <= j < self.entries().len() && j != i ==> (#[trigger] self.entries()[j]) == before.entries()[j],
            i < before.entries().len() ==> before.entries()[i].0 == t,
        ensures
            forall|u: Seq<char>| u != t ==> self.lookup(u) == before.lookup(u),
    {
        assert forall|u: Seq<char>| u != t implies self.lookup(u) == before.lookup(u) by {
            if exists|j: int| 0 <= j < before.entries().len() && (#[trigger] before.entries()[j]).0 == u {
                let j = choose|j: int| 0 <= j < before.entries().len() && (#[trigger] before.entries()[j]).0 == u;
                before.lemma_lookup_at(j);
                assert(j != i);
                assert(self.entries()[j] == before.entries()[j]);
                self.lemma_lookup_at(j);
            } else if exists|j: int| 0 <= j < self.entries().len() && (#[trigger] self.entries()[j]).0 == u {
                let j = choose|j: int| 0 <= j < self.entries().len() && (#[trigger] self.entries()[j]).0 == u;
                assert(j != i);
                assert(self.entries()[j] == before.entries()[j]);
            }
        }
    }

    /// A collection with one locale for each language tag of `definitions`,
    /// over the single resource text given with it (where a tag comes twice,
    /// the later text). Fails with one issue for each definition whose tag is
    /// invalid or whose text does not load, in order.
    pub fn from_definitions(definitions: Vec<(String, String)>, fallback_lang: LanguageTag, on_error: Option<O>) -> (r: Result<Locales<O>, Vec<LoadIssue>>)
        ensures
            r is Ok <==> defs_load(pairs_view(definitions@)),
            r matches Ok(reg) ==> reg.wf() && reg.fallback() == fallback_lang@ && reg.observer() == on_error
                && only_defined_tags(reg, pairs_view(definitions@))
                && forall|i: int| 0 <= i < definitions@.len() && last_for_tag(pairs_view(definitions@), i)
                    ==> holds_definition(reg, pairs_view(definitions@), i),
            r matches Err(e) ==> reports_bad_defs(e@, pairs_view(definitions@)),
    {
        let ghost defs = pairs_view(definitions@);
        let ghost obs = on_error;
        let mut reg = Locales::new(fallback_lang, on_error);
        let ghost fallback = reg.fallback();
        let mut issues: Vec<LoadIssue> = Vec::new();
        let mut rest = definitions;
        let ghost mut k: int = 0;
        while rest.len() > 0
            invariant
                0 <= k <= defs.len(),
                pairs_view(rest@) == defs.skip(k),
                rest@.len() == defs.len() - k,
                reg.wf(),
                reg.fallback() == fallback,
                reg.observer() == obs,
                issues@.len() == 0 <==> defs_load(defs.take(k)),
                reports_bad_defs(issues@, defs.take(k)),
                issues@.len() == 0 ==> forall|j: int| 0 <= j < k && last_for_tag(defs.take(k), j) ==> holds_definition(reg, defs, j),
                issues@.len() == 0 ==> only_defined_tags(reg, defs.take(k)),
            decreases rest.len(),
        {
            let ghost before = rest@;
            let ghost reg_before = reg;
            let ghost issues_before = issues@;
            let (lang, text) = rest.remove(0);
            proof {
                assert(pairs_view(before)[0] == defs.skip(k)[0]);
                assert(rest@ =~= before.skip(1));
                assert forall|i: int| 0 <= i < rest@.len() implies #[trigger] pairs_view(rest@)[i] == defs.skip(k + 1)[i] by {
                    assert(pairs_view(before)[i + 1] == defs.skip(k)[i + 1]);
                }
                assert(pairs_view(rest@) =~= defs.skip(k + 1));
                assert(lang@ == defs[k].0 && text@ == defs[k].1);
                assert(defs.take(k + 1) =~= defs.take(k).push(defs[k]));
                assert(defs.take(k + 1).drop_last() =~= defs.take(k));
                assert(defs.take(k + 1)[k] == defs[k]);
            }
            let valid = LanguageTag::parse(lang.as_str()).is_some();
            if !valid {
                let mut errors: Vec<Error> = Vec::new();
                errors.push(Error::InvalidLanguageTag { tag: lang.clone() });
                issues.push(LoadIssue::Rejected { locale: lang, errors });
                proof {
                    assert(!def_loads(defs[k]));
                    assert(!defs_load(defs.take(k + 1)));
                    assert(bad_defs(defs.take(k + 1)) == bad_defs(defs.take(k)).push(defs[k]));
                    assert forall|x: int| 0 <= x < issues@.len() implies rejects_def(#[trigger] issues@[x], bad_defs(defs.take(k + 1))[x]) by {
                        if x < issues_before.len() {
                            assert(issues@[x] == issues_before[x]);
                        }
                    }
                }
            } else {
                let mut texts: Vec<String> = Vec::new();
                texts.push(text);
                proof {
                    assert(texts_view(texts@) =~= seq![defs[k].1]);
                }
                match reg.add_locale(lang.as_str(), texts) {
                    Ok(()) => {
                        proof {
                            assert(def_loads(defs[k]));
                            assert(bad_defs(defs.take(k + 1)) =~= bad_defs(defs.take(k)));
                            let t = canonical_langid(defs[k].0).unwrap();
                            if issues@.len() == 0 {
                                assert forall|j: int| 0 <= j < k + 1 && last_for_tag(defs.take(k + 1), j) implies holds_definition(reg, defs, j) by {
                                    if j < k {
                                        assert(canonical_langid(defs[j].0) != canonical_langid(defs[k].0));
                                        assert forall|j2: int| j < j2 < k implies canonical_langid((#[trigger] defs.take(k)[j2]).0) != canonical_langid(defs.take(k)[j].0) by {
                                            assert(defs.take(k)[j2] == defs.take(k + 1)[j2]);
                                        }
                                        assert(last_for_tag(defs.take(k), j));
                                        let u = canonical_langid(defs[j].0).unwrap();
                                        assert(holds_definition(reg_before, defs, j));
                                        assert(u != t);
                                        assert(reg.lookup(u) == reg_before.lookup(u));
                                    } else {
                                        assert(j == k);
                                        assert(canonical_langid(defs[k].0) == Some(t));
                                        assert(reg.lookup(t) matches Some(st) && st.locale() == t && st.sources() == seq![defs[k].1]);
                                    }
                                }
                                assert forall|u: Seq<char>| reg.lookup(u) is Some implies exists|i: int| 0 <= i < k + 1 && canonical_langid((#[trigger] defs.take(k + 1)[i]).0) == Some(u) by {
                                    if u != t {
                                        assert(reg.lookup(u) == reg_before.lookup(u));
                                        let i = choose|i: int| 0 <= i < k && canonical_langid((#[trigger] defs.take(k)[i]).0) == Some(u);
                                        assert(defs.take(k)[i] == defs.take(k + 1)[i]);
                                    }
                                }
                            }
                        }
                    },
                    Err(e) => {
                        issues.push(LoadIssue::Rejected { locale: lang, errors: e });
                        proof {
                            assert(!def_loads(defs[k]));
                            assert(!defs_load(defs.take(k + 1)));
                            assert(bad_defs(defs.take(k + 1)) == bad_defs(defs.take(k)).push(defs[k]));
                            assert forall|x: int| 0 <= x < issues@.len() implies rejects_def(#[trigger] issues@[x], bad_defs(defs.take(k + 1))[x]) by {
                                if x < issues_before.len() {
                                    assert(issues@[x] == issues_before[x]);
                                }
                            }
                        }
                    },
                }
            }
            proof {
                k = k + 1;
            }
        }
        proof {
            assert(defs.take(k) =~= defs);
        }
        if issues.len() > 0 {
            return Err(issues);
        }
        Ok(reg)
    }

    /// A collection built from a JSON object that maps language tags to
    /// resource texts, as `from_definitions` builds it. Fails with
    /// `InvalidFormat` where `body` is no such object.
    pub fn from_json(body: &[u8], fallback_lang: LanguageTag, on_error: Option<O>) -> (r: Result<Locales<O>, Vec<LoadIssue>>)
        ensures
            json_string_map(body@) is None ==> (r matches Err(e) && e@ == seq![LoadIssue::InvalidFormat]),
            json_string_map(body@) matches Some(defs) ==> (r is Ok <==> defs_load(defs)),
            json_string_map(body@) matches Some(defs) ==> (r matches Ok(reg) ==> reg.wf() && reg.fallback() == fallback_lang@
                && reg.observer() == on_error
                && only_defined_tags(reg, defs) && forall|i: int| 0 <= i < defs.len() && last_for_tag(defs, i) ==> holds_definition(reg, defs, i)),
            json_string_map(body@) matches Some(defs) ==> (r matches Err(e) ==> reports_bad_defs(e@, defs)),
    {
        match decode_definitions(body) {
            Some(definitions) => Locales::from_definitions(definitions, fallback_lang, on_error),
            None => {
                let mut issues: Vec<LoadIssue> = Vec::new();
                issues.push(LoadIssue::InvalidFormat);
                proof {
                    assert(issues@ =~= seq![LoadIssue::InvalidFormat]);
                }
                Err(issues)
            },
        }
    }

    /// Resolves `query` in the language `lang`, or in the fallback language
    /// where `lang` has no locale. A failure is shown to the observer, if
    /// there is one, and returned as it is.
    pub fn query(&self, lang: &LanguageTag, query: &Query) -> (r: Result<Message, Vec<Error>>)
        requires
            self.wf(),
            self.has_fallback(),
            query.wf(),
        ensures
            resolves_to(r, self.route(lang@), *query),
    {
        let key = lang.to_text();
        let i = match self.find(&key) {
            Some(i) => i,
            None => match self.find(&self.fallback_lang) {
                Some(i) => i,
                None => {
                    proof {
                        assert(false);
                    }
                    0
                },
            },
        };
        proof {
            assert(self.entries()[i as int].1 == self.locales@[i as int].1.store_spec());
        }
        let r = self.locales[i].1.query(query);
        if let Err(errors) = &r {
            self.call_on_error(errors.as_slice());
        }
        r
    }

    /// Shows `errors` to the observer, if there is one.
    pub fn call_on_error(&self, errors: &[Error]) {
        if let Some(observer) = &self.on_error {
            observer.on_error(errors);
        }
    }
}

/// Whether `m` is the stand-in message for a query of `id` that failed:
/// the id as its value, and no attributes.
pub open spec fn is_stand_in(m: Message, id: Seq<char>) -> bool {
    m.id@ == id && m.value@ == id && m.attrs@.len() == 0
}

/// The message for `query` in the language `lang`; where the query fails, a
/// message whose value is the id itself, so that something can be shown.
pub fn tr<O: ErrorObserver>(locales: &Locales<O>, lang: &LanguageTag, query: &Query) -> (r: Message)
    requires
        locales.wf(),
        locales.has_fallback(),
        query.wf(),
    ensures
        resolves_to(Ok(r), locales.route(lang@), *query) || (is_stand_in(r, query.id_string()@)
            && !resolves_to(Ok(r), locales.route(lang@), *query)
            && exists|e: Vec<Error>| resolves_to(Err(e), locales.route(lang@), *query)),
{
    match locales.query(lang, query) {
        Ok(m) => m,
        Err(e) => {
            let m = Message { id: query.id().clone(), value: query.id().clone(), attrs: Vec::new() };
            proof {
                assert(resolves_to(Err(e), locales.route(lang@), *query));
            }
            m
        },
    }
}

/// The text of attribute `name` of `msg`, resolved with `args` where it is
/// not cached yet. Where that fails, or `msg` has no such attribute, the
/// errors go to the observer and the attribute's name stands in for its text.
pub fn attr<O: ErrorObserver>(locales: &Locales<O>, msg: &mut Message, name: &str, args: Option<&Args>) -> (r: String)
    ensures
        final(msg).id == old(msg).id,
        final(msg).value == old(msg).value,
        final(msg).attrs@.len() == old(msg).attrs@.len(),
        (forall|i: int| 0 <= i < old(msg).attrs@.len() ==> (#[trigger] old(msg).attrs@[i]).0@ != name@) ==> r@ == name@
            && final(msg).attrs@ == old(msg).attrs@,
        forall|i: int| 0 <= i < old(msg).attrs@.len() && (#[trigger] old(msg).attrs@[i]).0@ == name@
            && (forall|j: int| 0 <= j < i ==> (#[trigger] old(msg).attrs@[j]).0@ != name@) ==> (exists|res: Result<String, Vec<Error>>|
                answers(old(msg).attrs@[i].1, final(msg).attrs@[i].1, opt_args(args), res) && match res {
                    Ok(s) => r == s,
                    Err(_) => r@ == name@,
                }),
{
    let key = String::from_str(name);
    let mut i: usize = 0;
    while i < msg.attrs.len()
        invariant
            key@ == name@,
            *msg == *old(msg),
            i <= msg.attrs@.len(),
            forall|j: int| 0 <= j < i ==> (#[trigger] msg.attrs@[j]).0@ != name@,
        decreases msg.attrs@.len() - i,
    {
        if msg.attrs[i].0.eq(&key) {
            let ghost before = msg.attrs@;
            let (name, mut handle) = msg.attrs.remove(i);
            let res = handle.query(args);
            let ghost after = handle;
            msg.attrs.insert(i, (name, handle));
            proof {
                assert(msg.attrs@[i as int].1 == after);
                assert(answers(before[i as int].1, msg.attrs@[i as int].1, opt_args(args), res));
            }
            let ghost res_spec = res;
            let r = match res {
                Ok(s) => s,
                Err(errors) => {
                    locales.call_on_error(errors.as_slice());
                    key
                },
            };
            proof {
                assert(answers(old(msg).attrs@[i as int].1, msg.attrs@[i as int].1, opt_args(args), res_spec) && match res_spec {
                    Ok(s) => r == s,
                    Err(_) => r@ == name@,
                });
                assert forall|x: int| 0 <= x < old(msg).attrs@.len() && (#[trigger] old(msg).attrs@[x]).0@ == name@
                    && (forall|j: int| 0 <= j < x ==> (#[trigger] old(msg).attrs@[j]).0@ != name@) implies x == i by {
                    if x < i {
                    } else if x > i {
                        assert(old(msg).attrs@[i as int].0@ != name@);
                    }
                }
            }
            return r;
        }
        i = i + 1;
    }
    let mut errors: Vec<Error> = Vec::new();
    errors.push(Error::AttributeNotFound { message_id: msg.id.clone(), attr_id: key.clone() });
    locales.call_on_error(errors.as_slice());
    key
}

/// A description of each language identifier among `names`, in order.
pub fn langs(names: &Vec<String>) -> (r: Vec<crate::langid::Lang>)
    ensures
        r@.len() == names@.len(),
        forall|x: int| 0 <= x < r@.len() ==> crate::langid::describes(#[trigger] r@[x], names@[x]@),
{
    let mut r: Vec<crate::langid::Lang> = Vec::new();
    let mut i: usize = 0;
    while i < names.len()
        invariant
            i <= names@.len(),
            r@.len() == i,
            forall|x: int| 0 <= x < i ==> crate::langid::describes(#[trigger] r@[x], names@[x]@),
        decreases names@.len() - i,
    {
        r.push(crate::langid::Lang::from_name(names[i].as_str()));
        i = i + 1;
    }
    r
}

} // verus!

use crate::args::{args_entries, ArgModel, Args};
use crate::error::{from_faults, Error, FluentFault};
use crate::tag::LanguageTag;
use fluent_bundle::{FluentArgs, FluentError, FluentResource};
use std::sync::Arc;
use vstd::prelude::*;

verus! {

/// A thread-safe Fluent bundle: the resources of one language and the
/// formatter over them. Its contents are known through `bundle_locale` and
/// `bundle_sources`.
pub type Bundle = fluent_bundle::concurrent::FluentBundle<FluentResource>;

#[verifier::external_type_specification]
#[verifier::external_body]
#[verifier::reject_recursive_types(R)]
#[verifier::reject_recursive_types(M)]
pub struct ExFluentBundle<R, M>(fluent_bundle::bundle::FluentBundle<R, M>);

#[verifier::external_type_specification]
#[verifier::external_body]
pub struct ExIntlLangMemoizer(intl_memoizer::concurrent::IntlLangMemoizer);

#[verifier::external_type_specification]
#[verifier::external_body]
pub struct ExFluentResource(FluentResource);

/// The source text that a resource was parsed from.
pub uninterp spec fn resource_source(r: FluentResource) -> Seq<char>;

/// The language that a bundle formats for.
pub uninterp spec fn bundle_locale(b: Bundle) -> Seq<char>;

/// The source texts of the resources added to a bundle, in order.
pub uninterp spec fn bundle_sources(b: Bundle) -> Seq<Seq<char>>;

/// For the message `id` of the resources `sources`: whether it has a value,
/// and the ids of its attributes in declaration order; `None` where no
/// message has that id.
pub uninterp spec fn message_outline(sources: Seq<Seq<char>>, id: Seq<char>) -> Option<(bool, Seq<Seq<char>>)>;

/// The text and the faults that formatting the value of message `id` gives,
/// in the language `locale`, over the resources `sources`, with `args`.
pub uninterp spec fn formatted_value(
    locale: Seq<char>,
    sources: Seq<Seq<char>>,
    id: Seq<char>,
    args: Option<Map<Seq<char>, ArgModel>>,
) -> Option<(Seq<char>, Seq<FluentFault>)>;

/// The text and the faults that formatting attribute `attr` of message `id`
/// gives, in the language `locale`, over the resources `sources`, with `args`.
pub uninterp spec fn formatted_attribute(
    locale: Seq<char>,
    sources: Seq<Seq<char>>,
    id: Seq<char>,
    attr: Seq<char>,
    args: Option<Map<Seq<char>, ArgModel>>,
) -> Option<(Seq<char>, Seq<FluentFault>)>;

pub open spec fn args_model(args: Option<&FluentArgs<'static>>) -> Option<Map<Seq<char>, ArgModel>> {
    match args {
        Some(a) => Some(args_entries(*a)),
        None => None,
    }
}

pub open spec fn outline_view(r: Option<(bool, Vec<String>)>) -> Option<(bool, Seq<Seq<char>>)> {
    match r {
        Some((v, attrs)) => Some((v, texts_view(attrs@))),
        None => None,
    }
}

pub open spec fn formatted_view(r: Option<(String, Vec<FluentFault>)>) -> Option<(Seq<char>, Seq<FluentFault>)> {
    match r {
        Some((t, fs)) => Some((t@, fs@)),
        None => None,
    }
}

/// Whether the outline `o` is that of a message with a value.
pub open spec fn outline_has_value(o: Option<(bool, Seq<Seq<char>>)>) -> bool {
    o matches Some((v, _)) && v
}

/// Whether the outline `o` is that of a message with the attribute `attr`.
pub open spec fn outline_has_attr(o: Option<(bool, Seq<Seq<char>>)>, attr: Seq<char>) -> bool {
    o matches Some((_, attrs)) && attrs.contains(attr)
}

/// Relies on `FluentBundle::new_concurrent`: a bundle for `lang`, with no resources.
#[verifier::external_body]
fn new_bundle(lang: &LanguageTag) -> (r: Bundle)
    ensures
        bundle_locale(r) == lang@,
        bundle_sources(r).len() == 0,
{
    Bundle::new_concurrent(vec![lang.langid.clone()])
}

/// Whether `FluentResource::try_new` parses `text` without syntax errors.
pub uninterp spec fn resource_parses(text: Seq<char>) -> bool;

/// The ids of the messages and terms (terms without their `-`) of the
/// resource that `FluentResource::try_new` parses from `text`, in order.
pub uninterp spec fn resource_ids(text: Seq<char>) -> Seq<Seq<char>>;

/// The ids that the resources `texts` define, in order.
pub open spec fn ids_of_texts(texts: Seq<Seq<char>>) -> Seq<Seq<char>>
    decreases texts.len(),
{
    if texts.len() == 0 {
        Seq::empty()
    } else {
        ids_of_texts(texts.drop_last()) + resource_ids(texts.last())
    }
}

/// Whether no id occurs twice in `ids`.
pub open spec fn distinct_ids(ids: Seq<Seq<char>>) -> bool {
    forall|a: int, b: int| 0 <= a < b < ids.len() ==> ids[a] != ids[b]
}

/// Whether `id` occurs twice in `ids`.
pub open spec fn duplicated(ids: Seq<Seq<char>>, id: Seq<char>) -> bool {
    exists|a: int, b: int| 0 <= a < b < ids.len() && ids[a] == id && ids[b] == id
}

/// Whether no id of `new` is among `prior` or occurs twice in `new`.
pub open spec fn fresh_ids(prior: Seq<Seq<char>>, new: Seq<Seq<char>>) -> bool {
    forall|i: int| 0 <= i < new.len() ==> !prior.contains(#[trigger] new[i]) && forall|j: int| 0 <= j < i ==> new[j] != new[i]
}

/// Whether `id` is an id of `new` that `prior`, or an earlier entry of `new`, holds.
pub open spec fn collides(prior: Seq<Seq<char>>, new: Seq<Seq<char>>, id: Seq<char>) -> bool {
    exists|i: int| 0 <= i < new.len() && #[trigger] new[i] == id && (prior.contains(id) || exists|j: int| 0 <= j < i && new[j] == id)
}

proof fn lemma_fresh_distinct(prior: Seq<Seq<char>>, new: Seq<Seq<char>>)
    requires
        distinct_ids(prior),
    ensures
        fresh_ids(prior, new) <==> distinct_ids(prior + new),
{
    let all = prior + new;
    let n = prior.len();
    if fresh_ids(prior, new) {
        assert forall|a: int, b: int| 0 <= a < b < all.len() implies all[a] != all[b] by {
            if b >= n {
                if a >= n {
                    assert(new[a - n] == all[a]);
                    assert(new[b - n] == all[b]);
                } else {
                    assert(prior[a] == all[a]);
                    assert(new[b - n] == all[b]);
                    if all[a] == all[b] {
                        assert(prior.contains(new[b - n]));
                    }
                }
            } else {
                assert(prior[a] == all[a]);
                assert(prior[b] == all[b]);
            }
        }
    }
    if distinct_ids(all) {
        assert forall|i: int| 0 <= i < new.len() implies !prior.contains(#[trigger] new[i]) && forall|j: int| 0 <= j < i ==> new[j] != new[i] by {
            assert(all[n + i] == new[i]);
            if prior.contains(new[i]) {
                let a = choose|a: int| 0 <= a < prior.len() && prior[a] == new[i];
                assert(all[a] == prior[a]);
            }
            assert forall|j: int| 0 <= j < i implies new[j] != new[i] by {
                assert(all[n + j] == new[j]);
            }
        }
    }
}

proof fn lemma_collides_duplicated(prior: Seq<Seq<char>>, new: Seq<Seq<char>>, id: Seq<char>)
    requires
        collides(prior, new, id),
    ensures
        duplicated(prior + new, id),
{
    let all = prior + new;
    let n = prior.len();
    let i = choose|i: int| 0 <= i < new.len() && #[trigger] new[i] == id && (prior.contains(id) || exists|j: int| 0 <= j < i && new[j] == id);
    assert(all[n + i] == id);
    if prior.contains(id) {
        let a = choose|a: int| 0 <= a < prior.len() && prior[a] == id;
        assert(all[a] == id);
    } else {
        let j = choose|j: int| 0 <= j < i && new[j] == id;
        assert(all[n + j] == id);
    }
}

/// The ids of a prefix of `texts` are a prefix of the ids of `texts`.
proof fn lemma_ids_prefix(texts: Seq<Seq<char>>, k: int)
    requires
        0 <= k <= texts.len(),
    ensures
        ids_of_texts(texts.take(k)).len() <= ids_of_texts(texts).len(),
        ids_of_texts(texts).take(ids_of_texts(texts.take(k)).len() as int) == ids_of_texts(texts.take(k)),
    decreases texts.len(),
{
    if k == texts.len() {
        assert(texts.take(k) =~= texts);
        assert(ids_of_texts(texts).take(ids_of_texts(texts).len() as int) =~= ids_of_texts(texts));
    } else {
        assert(texts.take(k) =~= texts.drop_last().take(k));
        lemma_ids_prefix(texts.drop_last(), k);
        let p = ids_of_texts(texts.take(k));
        assert(ids_of_texts(texts).take(p.len() as int) =~= ids_of_texts(texts.drop_last()).take(p.len() as int));
    }
}

proof fn lemma_prefix_distinct(all: Seq<Seq<char>>, part: Seq<Seq<char>>)
    requires
        part.len() <= all.len(),
        all.take(part.len() as int) == part,
    ensures
        distinct_ids(all) ==> distinct_ids(part),
        forall|id: Seq<char>| duplicated(part, id) ==> duplicated(all, id),
{
    assert forall|id: Seq<char>| duplicated(part, id) implies duplicated(all, id) by {
        let (a, b) = choose|a: int, b: int| 0 <= a < b < part.len() && part[a] == id && part[b] == id;
        assert(all[a] == part[a] && all[b] == part[b]);
    }
    if distinct_ids(all) {
        assert forall|a: int, b: int| 0 <= a < b < part.len() implies part[a] != part[b] by {
            assert(all[a] == part[a] && all[b] == part[b]);
        }
    }
}

/// Whether every text of `texts` parses.
pub open spec fn all_parse(texts: Seq<Seq<char>>) -> bool {
    forall|i: int| 0 <= i < texts.len() ==> resource_parses(#[trigger] texts[i])
}

/// Whether the resources `texts` can be merged into one store: each parses,
/// and no id is defined twice.
pub open spec fn texts_load(texts: Seq<Seq<char>>) -> bool {
    all_parse(texts) && distinct_ids(ids_of_texts(texts))
}

/// Whether `e` reports an id that `ids` holds twice.
pub open spec fn is_duplicate_error(e: Error, ids: Seq<Seq<char>>) -> bool {
    e matches Error::DuplicateId { id } && duplicated(ids, id@)
}

/// Whether `e` is what merging `texts` fails with: `Syntax` where a text
/// does not parse, else one `DuplicateId` or more, each for an id defined twice.
pub open spec fn load_failure(e: Seq<Error>, texts: Seq<Seq<char>>) -> bool {
    &&& e.len() > 0
    &&& (e == seq![Error::Syntax] && !all_parse(texts)) || (forall|k: int| 0 <= k < e.len() ==> is_duplicate_error(#[trigger] e[k], ids_of_texts(texts)))
}

/// Relies on `FluentResource::try_new`: `None` where the text has syntax errors.
#[verifier::external_body]
fn parse_resource(text: String) -> (r: Option<FluentResource>)
    ensures
        r is Some <==> resource_parses(text@),
        r matches Some(res) ==> resource_source(res) == text@,
{
    FluentResource::try_new(text).ok()
}

/// Relies on `FluentBundle::add_resource`: the resource is added in any case;
/// there is one `Overriding` fault for each of its ids that an earlier
/// resource, or an earlier entry of its own, already defined.
#[verifier::external_body]
fn add_resource(b: &mut Bundle, res: FluentResource) -> (r: Vec<FluentFault>)
    ensures
        bundle_locale(*final(b)) == bundle_locale(*old(b)),
        bundle_sources(*final(b)) == bundle_sources(*old(b)).push(resource_source(res)),
        r@.len() == 0 <==> fresh_ids(ids_of_texts(bundle_sources(*old(b))), resource_ids(resource_source(res))),
        forall|k: int| 0 <= k < r@.len() ==> (#[trigger] r@[k] matches FluentFault::Overriding { id }
            && collides(ids_of_texts(bundle_sources(*old(b))), resource_ids(resource_source(res)), id@)),
{
    match b.add_resource(res) {
        Ok(()) => Vec::new(),
        Err(errors) => errors.into_iter().map(|e| match e {
            FluentError::Overriding { id, .. } => FluentFault::Overriding { id },
            FluentError::ParserError(_) => FluentFault::Parser,
            FluentError::ResolverError(r) => FluentFault::Resolver(r),
        }).collect(),
    }
}

/// Whether formatting gives a result for every attribute in `attrs` of
/// message `id`, and for its value where `has_value`, whatever the arguments.
pub open spec fn always_formats(locale: Seq<char>, sources: Seq<Seq<char>>, id: Seq<char>, has_value: bool, attrs: Seq<Seq<char>>) -> bool {
    &&& forall|a: Seq<char>, args: Option<Map<Seq<char>, ArgModel>>|
        attrs.contains(a) ==> (#[trigger] formatted_attribute(locale, sources, id, a, args)) is Some
    &&& has_value ==> forall|args: Option<Map<Seq<char>, ArgModel>>| (#[trigger] formatted_value(locale, sources, id, args)) is Some
}

/// Relies on `FluentBundle::get_message`, `FluentMessage::value` and
/// `FluentMessage::attributes`: the shape of message `id`. Its value and each
/// of its attributes can be found and formatted (`get_attribute` finds every
/// attribute that `attributes` lists; `format_pattern` always returns a text).
#[verifier::external_body]
fn outline(b: &Bundle, id: &str) -> (r: Option<(bool, Vec<String>)>)
    ensures
        outline_view(r) == message_outline(bundle_sources(*b), id@),
        r matches Some((v, attrs)) ==> always_formats(bundle_locale(*b), bundle_sources(*b), id@, v, texts_view(attrs@)),
{
    b.get_message(id).map(|m| (m.value().is_some(), m.attributes().map(|a| a.id().to_string()).collect()))
}

/// Relies on `FluentBundle::format_pattern` on the value of message `id`:
/// `None` where the message or its value is missing.
#[verifier::external_body]
fn format_value(b: &Bundle, id: &str, args: Option<&FluentArgs<'static>>) -> (r: Option<(String, Vec<FluentFault>)>)
    ensures
        formatted_view(r) == formatted_value(bundle_locale(*b), bundle_sources(*b), id@, args_model(args)),
        r is Some <==> outline_has_value(message_outline(bundle_sources(*b), id@)),
{
    let mut errors = Vec::new();
    let text = b.format_pattern(b.get_message(id)?.value()?, args, &mut errors).to_string();
    Some((text, errors.into_iter().map(|e| match e {
        FluentError::Overriding { id, .. } => FluentFault::Overriding { id },
        FluentError::ParserError(_) => FluentFault::Parser,
        FluentError::ResolverError(r) => FluentFault::Resolver(r),
    }).collect()))
}

/// Relies on `FluentBundle::format_pattern` on attribute `attr` of message
/// `id`: `None` where the message or the attribute is missing.
#[verifier::external_body]
fn format_attribute(b: &Bundle, id: &str, attr: &str, args: Option<&FluentArgs<'static>>) -> (r: Option<(String, Vec<FluentFault>)>)
    ensures
        formatted_view(r) == formatted_attribute(bundle_locale(*b), bundle_sources(*b), id@, attr@, args_model(args)),
        r is Some <==> outline_has_attr(message_outline(bundle_sources(*b), id@), attr@),
{
    let mut errors = Vec::new();
    let text = b.format_pattern(b.get_message(id)?.get_attribute(attr)?.value(), args, &mut errors).to_string();
    Some((text, errors.into_iter().map(|e| match e {
        FluentError::Overriding { id, .. } => FluentFault::Overriding { id },
        FluentError::ParserError(_) => FluentFault::Parser,
        FluentError::ResolverError(r) => FluentFault::Resolver(r),
    }).collect()))
}

/// Relies on `Arc::clone`: a second handle on the same bundle.
#[verifier::external_body]
fn share(b: &Arc<Bundle>) -> (r: Arc<Bundle>)
    ensures
        r == *b,
{
    Arc::clone(b)
}

/// The texts of a sequence of strings.
pub open spec fn texts_view(v: Seq<String>) -> Seq<Seq<char>> {
    v.map_values(|t: String| t@)
}

/// Whether `v` holds a string with the same text as `s`.
pub(crate) fn contains_text(v: &Vec<String>, s: &String) -> (r: bool)
    ensures
        r == texts_view(v@).contains(s@),
{
    let mut i: usize = 0;
    while i < v.len()
        invariant
            i <= v@.len(),
            forall|j: int| 0 <= j < i ==> (#[trigger] v@[j])@ != s@,
        decreases v@.len() - i,
    {
        if v[i].eq(s) {
            proof {
                assert(texts_view(v@)[i as int] == s@);
            }
            return true;
        }
        i = i + 1;
    }
    proof {
        if texts_view(v@).contains(s@) {
            let j = choose|j: int| 0 <= j < v@.len() && texts_view(v@)[j] == s@;
            assert(v@[j]@ == s@);
        }
    }
    false
}

pub open spec fn opt_args(args: Option<&Args>) -> Option<Map<Seq<char>, ArgModel>> {
    match args {
        Some(a) => Some(a@),
        None => None,
    }
}

/// Parses each text and merges the resources into one bundle for `lang`.
/// Fails with `Syntax` on a text that does not parse, and with
/// `DuplicateId` where two resources define the same id.
fn merge(lang: &LanguageTag, texts: Vec<String>) -> (r: Result<Bundle, Vec<Error>>)
    ensures
        r is Ok <==> texts_load(texts_view(texts@)),
        r matches Ok(b) ==> bundle_locale(b) == lang@ && bundle_sources(b) == texts_view(texts@),
        r matches Err(e) ==> load_failure(e@, texts_view(texts@)),
{
    let mut b = new_bundle(lang);
    let mut rest = texts;
    let ghost all = texts_view(rest@);
    let ghost mut k: int = 0;
    while rest.len() > 0
        invariant
            0 <= k <= all.len(),
            texts_view(rest@) == all.skip(k),
            rest@.len() == all.len() - k,
            bundle_sources(b) == all.take(k),
            bundle_locale(b) == lang@,
            all == texts_view(texts@),
            forall|j: int| 0 <= j < k ==> resource_parses(#[trigger] all[j]),
            distinct_ids(ids_of_texts(all.take(k))),
        decreases rest.len(),
    {
        let ghost before = rest@;
        let text = rest.remove(0);
        proof {
            assert(texts_view(before)[0] == all.skip(k)[0]);
            assert(text@ == all[k]);
            assert(rest@ =~= before.skip(1));
            assert forall|i: int| 0 <= i < rest@.len() implies #[trigger] texts_view(rest@)[i] == all.skip(k + 1)[i] by {
                assert(texts_view(before)[i + 1] == all.skip(k)[i + 1]);
            }
            assert(texts_view(rest@) =~= all.skip(k + 1));
        }
        let res = match parse_resource(text) {
            Some(res) => res,
            None => {
                let errors = vec![Error::Syntax];
                proof {
                    assert(!all_parse(all) && !texts_load(all));
                    assert(errors@ =~= seq![Error::Syntax]);
                    assert(load_failure(errors@, all));
                }
                return Err(errors);
            },
        };
        let faults = add_resource(&mut b, res);
        proof {
            assert(all.take(k + 1) =~= all.take(k).push(all[k]));
            assert(all.take(k + 1).drop_last() =~= all.take(k));
            assert(ids_of_texts(all.take(k + 1)) == ids_of_texts(all.take(k)) + resource_ids(all[k]));
            lemma_fresh_distinct(ids_of_texts(all.take(k)), resource_ids(all[k]));
            lemma_ids_prefix(all, k + 1);
            lemma_prefix_distinct(ids_of_texts(all), ids_of_texts(all.take(k + 1)));
        }
        if faults.len() > 0 {
            let ghost fs = faults@;
            let errors = from_faults(faults);
            proof {
                assert(!texts_load(all));
                assert forall|x: int| 0 <= x < errors@.len() implies is_duplicate_error(#[trigger] errors@[x], ids_of_texts(all)) by {
                    assert(errors@[x] == crate::error::fault_error(fs[x]));
                    lemma_collides_duplicated(ids_of_texts(all.take(k)), resource_ids(all[k]), fs[x]->Overriding_id@);
                }
            }
            return Err(errors);
        }
        proof {
            k = k + 1;
        }
    }
    proof {
        assert(all.take(k) =~= all);
    }
    Ok(b)
}

/// A copy of each text, in order.
fn copy_texts(texts: &Vec<String>) -> (r: Vec<String>)
    ensures
        texts_view(r@) == texts_view(texts@),
{
    let mut r: Vec<String> = Vec::new();
    let mut i: usize = 0;
    while i < texts.len()
        invariant
            i <= texts@.len(),
            texts_view(r@) == texts_view(texts@.take(i as int)),
        decreases texts@.len() - i,
    {
        r.push(texts[i].clone());
        proof {
            assert(texts_view(texts@.take(i + 1)) =~= texts_view(texts@.take(i as int)).push(texts@[i as int]@));
            assert(texts_view(r@) =~= texts_view(texts@.take(i + 1)));
        }
        i = i + 1;
    }
    proof {
        assert(texts@.take(texts@.len() as int) =~= texts@);
    }
    r
}

/// The parsed resources of one language, shared by reference between a
/// locale and the attribute handles that it gives out.
pub struct PatternStore {
    bundle: Arc<Bundle>,
}

impl PatternStore {
    /// The language this store formats for.
    pub closed spec fn locale(&self) -> Seq<char> {
        bundle_locale(*self.bundle)
    }

    /// The source texts of the store's resources, in order.
    pub closed spec fn sources(&self) -> Seq<Seq<char>> {
        bundle_sources(*self.bundle)
    }

    /// Whether the resources parsed from `texts` merge into one store for
    /// `lang`: `Syntax` where a text does not parse, `DuplicateId` where two
    /// resources define the same id.
    pub fn check(lang: &LanguageTag, texts: &Vec<String>) -> (r: Result<(), Vec<Error>>)
        ensures
            r is Ok <==> texts_load(texts_view(texts@)),
            r matches Err(e) ==> load_failure(e@, texts_view(texts@)),
    {
        match merge(lang, copy_texts(texts)) {
            Ok(_) => Ok(()),
            Err(e) => Err(e),
        }
    }

    /// Merges the resources parsed from `texts` into one store for `lang`.
    pub fn build(lang: &LanguageTag, texts: Vec<String>) -> (r: PatternStore)
        requires
            texts_load(texts_view(texts@)),
        ensures
            r.locale() == lang@,
            r.sources() == texts_view(texts@),
    {
        match merge(lang, texts) {
            Ok(b) => PatternStore { bundle: Arc::new(b) },
            Err(_) => {
                proof {
                    assert(false);
                }
                PatternStore { bundle: Arc::new(new_bundle(lang)) }
            },
        }
    }

    /// A second handle on the same store.
    pub fn share(&self) -> (r: PatternStore)
        ensures
            r == *self,
    {
        PatternStore { bundle: share(&self.bundle) }
    }

    /// Whether message `id` exists, whether it has a value, and its attribute ids.
    pub fn outline(&self, id: &str) -> (r: Option<(bool, Vec<String>)>)
        ensures
            outline_view(r) == message_outline(self.sources(), id@),
            r matches Some((v, attrs)) ==> always_formats(self.locale(), self.sources(), id@, v, texts_view(attrs@)),
    {
        outline(&self.bundle, id)
    }

    /// Formats the value of message `id`.
    pub fn format_value(&self, id: &str, args: Option<&Args>) -> (r: Option<(String, Vec<FluentFault>)>)
        ensures
            formatted_view(r) == formatted_value(self.locale(), self.sources(), id@, opt_args(args)),
            r is Some <==> outline_has_value(message_outline(self.sources(), id@)),
    {
        let fa = match args {
            Some(a) => Some(a.fluent()),
            None => None,
        };
        format_value(&self.bundle, id, fa)
    }

    /// Formats attribute `attr` of message `id`.
    pub fn format_attribute(&self, id: &str, attr: &str, args: Option<&Args>) -> (r: Option<(String, Vec<FluentFault>)>)
        ensures
            formatted_view(r) == formatted_attribute(self.locale(), self.sources(), id@, attr@, opt_args(args)),
            r is Some <==> outline_has_attr(message_outline(self.sources(), id@), attr@),
    {
        let fa = match args {
            Some(a) => Some(a.fluent()),
            None => None,
        };
        format_attribute(&self.bundle, id, attr, fa)
    }
}

} // verus!

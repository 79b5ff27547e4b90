use crate::args::Args;
use crate::error::{fault_errors, fault_is_missing_variable, from_faults, only_missing_variables, Error};
use crate::query::Query;
use crate::store::{always_formats, formatted_attribute, formatted_value, message_outline, opt_args, outline_has_attr, PatternStore};
use crate::tag::LanguageTag;
use vstd::prelude::*;

verus! {

/// The text `<id>` that stands for a message without a value.
pub open spec fn placeholder(id: Seq<char>) -> Seq<char> {
    seq!['<'] + id + seq!['>']
}

/// The value of a message and the errors met while formatting it, given
/// whether the message has a value.
pub open spec fn main_outcome(store: PatternStore, q: Query, has_value: bool) -> (Seq<char>, Seq<Error>) {
    if has_value {
        match formatted_value(store.locale(), store.sources(), q.id_string()@, Some(q.main_args())) {
            Some((text, faults)) => (text, fault_errors(faults)),
            None => (Seq::empty(), Seq::empty()),
        }
    } else {
        (placeholder(q.id_string()@), Seq::empty())
    }
}

/// What the query makes of attribute `attr` of its message: the cached text,
/// if it resolved, and the errors it contributes. With explicit arguments all
/// errors count; without, an attribute whose only errors are missing variables
/// is deferred and contributes none.
pub open spec fn attr_outcome(store: PatternStore, q: Query, attr: Seq<char>) -> (Option<Seq<char>>, Seq<Error>) {
    let explicit = q.explicit_args(attr);
    match formatted_attribute(store.locale(), store.sources(), q.id_string()@, attr, explicit) {
        Some((text, faults)) => if faults.len() == 0 {
            (Some(text), Seq::empty())
        } else if explicit is None && only_missing_variables(faults) {
            (None, Seq::empty())
        } else {
            (None, fault_errors(faults))
        },
        None => (None, Seq::empty()),
    }
}

/// The errors that the attributes `attrs` contribute, in order.
pub open spec fn attrs_errors(store: PatternStore, q: Query, attrs: Seq<Seq<char>>) -> Seq<Error>
    decreases attrs.len(),
{
    if attrs.len() == 0 {
        Seq::empty()
    } else {
        attrs_errors(store, q, attrs.drop_last()) + attr_outcome(store, q, attrs.last()).1
    }
}

/// One `AttributeNotFound` for each name in `keys` that `attrs` does not declare, in order.
pub open spec fn unmatched_errors(id: String, keys: Seq<String>, attrs: Seq<Seq<char>>) -> Seq<Error>
    decreases keys.len(),
{
    if keys.len() == 0 {
        Seq::empty()
    } else {
        unmatched_errors(id, keys.drop_last(), attrs) + if attrs.contains(keys.last()@) {
            Seq::empty()
        } else {
            seq![Error::AttributeNotFound { message_id: id, attr_id: keys.last() }]
        }
    }
}

/// All errors of resolving `q` against `store`, in the order they are reported.
pub open spec fn resolution_errors(store: PatternStore, q: Query) -> Seq<Error> {
    match message_outline(store.sources(), q.id_string()@) {
        None => seq![Error::MessageNotFound { id: q.id_string() }],
        Some((has_value, attrs)) => main_outcome(store, q, has_value).1 + attrs_errors(store, q, attrs)
            + unmatched_errors(q.id_string(), q.attr_keys(), attrs),
    }
}

pub open spec fn opt_text(v: Option<String>) -> Option<Seq<char>> {
    match v {
        Some(s) => Some(s@),
        None => None,
    }
}

/// Whether `h` is the handle that resolving `q` against `store` gives for attribute `attr`.
pub open spec fn handle_matches(h: AttrCache, store: PatternStore, q: Query, attr: Seq<char>) -> bool {
    &&& h.entry_id@ == q.id_string()@
    &&& h.attr_id@ == attr
    &&& opt_text(h.value) == attr_outcome(store, q, attr).0
    &&& h.store == store
}

/// Whether `m` is the message that resolving `q` against `store` gives, for a
/// message with a value or not, declaring the attributes `attrs`.
pub open spec fn message_matches(m: Message, store: PatternStore, q: Query, has_value: bool, attrs: Seq<Seq<char>>) -> bool {
    &&& m.id@ == q.id_string()@
    &&& m.value@ == main_outcome(store, q, has_value).0
    &&& m.attrs@.len() == attrs.len()
    &&& forall|i: int| 0 <= i < attrs.len() ==> (#[trigger] m.attrs@[i]).0@ == attrs[i]
        && handle_matches(m.attrs@[i].1, store, q, attrs[i])
}

/// What resolving `q` against `store` returns: the errors where there are
/// any, else the message. A message that exists always formats.
pub open spec fn resolves_to(r: Result<Message, Vec<Error>>, store: PatternStore, q: Query) -> bool {
    let errs = resolution_errors(store, q);
    match message_outline(store.sources(), q.id_string()@) {
        None => r matches Err(e) && e@ == errs,
        Some((has_value, attrs)) => always_formats(store.locale(), store.sources(), q.id_string()@, has_value, attrs) && if errs.len() > 0 {
            r matches Err(e) && e@ == errs
        } else {
            r matches Ok(m) && message_matches(m, store, q, has_value, attrs)
        },
    }
}

/// A localized message: its id, its formatted value, and its attributes in
/// declaration order.
#[derive(PartialEq)]
pub struct Message {
    pub id: String,
    pub value: String,
    pub attrs: Vec<(String, AttrCache)>,
}

/// An attribute of a resolved message. It holds the attribute's text where
/// it resolved without arguments or with the query's, and otherwise can be
/// resolved later with arguments.
pub struct AttrCache {
    pub entry_id: String,
    pub attr_id: String,
    pub value: Option<String>,
    pub store: PatternStore,
}

/// What resolving the handle `h` with `args` returns when it holds no cached text.
pub open spec fn lazy_outcome(h: AttrCache, args: Option<Map<Seq<char>, crate::args::ArgModel>>) -> Result<Seq<char>, Seq<Error>> {
    let o = message_outline(h.store.sources(), h.entry_id@);
    if o is None {
        Err(seq![Error::MessageNotFound { id: h.entry_id }])
    } else if !outline_has_attr(o, h.attr_id@) {
        Err(seq![Error::AttributeNotFound { message_id: h.entry_id, attr_id: h.attr_id }])
    } else {
        match formatted_attribute(h.store.locale(), h.store.sources(), h.entry_id@, h.attr_id@, args) {
            Some((text, faults)) => if faults.len() == 0 {
                Ok(text)
            } else {
                Err(fault_errors(faults))
            },
            None => Err(Seq::empty()),
        }
    }
}

/// Whether `r` and the handle `post` are what querying the handle `pre` with
/// `args` gives.
pub open spec fn answers(
    pre: AttrCache,
    post: AttrCache,
    args: Option<Map<Seq<char>, crate::args::ArgModel>>,
    r: Result<String, Vec<Error>>,
) -> bool {
    &&& post.entry_id == pre.entry_id
    &&& post.attr_id == pre.attr_id
    &&& post.store == pre.store
    &&& pre.value matches Some(v) ==> r == Ok::<String, Vec<Error>>(v) && post.value == pre.value
    &&& pre.value is None ==> match lazy_outcome(pre, args) {
        Ok(text) => r matches Ok(s) && s@ == text && opt_text(post.value) == Some(text),
        Err(errs) => r matches Err(e) && e@ == errs && post.value is None,
    }
}

impl AttrCache {
    /// The attribute's text. A cached text is returned as it is, whatever
    /// `args` holds. Otherwise the attribute is formatted with `args`; every
    /// error is reported, and a text formatted without error is cached.
    pub fn query(&mut self, args: Option<&Args>) -> (r: Result<String, Vec<Error>>)
        ensures
            answers(*old(self), *final(self), opt_args(args), r),
    {
        if let Some(v) = &self.value {
            return Ok(v.clone());
        }
        let outline = self.store.outline(self.entry_id.as_str());
        if outline.is_none() {
            let mut errors: Vec<Error> = Vec::new();
            errors.push(Error::MessageNotFound { id: self.entry_id.clone() });
            proof {
                assert(errors@ =~= seq![Error::MessageNotFound { id: self.entry_id }]);
            }
            return Err(errors);
        }
        match self.store.format_attribute(self.entry_id.as_str(), self.attr_id.as_str(), args) {
            None => {
                let mut errors: Vec<Error> = Vec::new();
                errors.push(Error::AttributeNotFound { message_id: self.entry_id.clone(), attr_id: self.attr_id.clone() });
                proof {
                    assert(errors@ =~= seq![Error::AttributeNotFound { message_id: self.entry_id, attr_id: self.attr_id }]);
                }
                Err(errors)
            },
            Some((text, faults)) => {
                if faults.len() > 0 {
                    return Err(from_faults(faults));
                }
                self.value = Some(text.clone());
                Ok(text)
            },
        }
    }
}

impl Message {
    /// The handle of attribute `id`, the first of that name.
    pub fn attr(&self, id: &str) -> (r: Option<&AttrCache>)
        ensures
            r matches Some(h) ==> exists|i: int| 0 <= i < self.attrs@.len() && self.attrs@[i].0@ == id@ && self.attrs@[i].1 == *h
                && forall|j: int| 0 <= j < i ==> (#[trigger] self.attrs@[j]).0@ != id@,
            r is None ==> forall|i: int| 0 <= i < self.attrs@.len() ==> (#[trigger] self.attrs@[i]).0@ != id@,
    {
        let key = String::from_str(id);
        let mut i: usize = 0;
        while i < self.attrs.len()
            invariant
                i <= self.attrs@.len(),
                key@ == id@,
                forall|j: int| 0 <= j < i ==> (#[trigger] self.attrs@[j]).0@ != id@,
            decreases self.attrs@.len() - i,
        {
            if self.attrs[i].0.eq(&key) {
                return Some(&self.attrs[i].1);
            }
            i = i + 1;
        }
        None
    }
}

impl PartialEq for AttrCache {
    /// Two handles are equal when they name the same attribute of the same
    /// message, whatever they have cached.
    fn eq(&self, other: &AttrCache) -> (r: bool) {
        self.entry_id.eq(&other.entry_id) && self.attr_id.eq(&other.attr_id)
    }
}

impl vstd::std_specs::cmp::PartialEqSpecImpl for AttrCache {
    open spec fn obeys_eq_spec() -> bool {
        true
    }

    open spec fn eq_spec(&self, other: &AttrCache) -> bool {
        self.entry_id@ == other.entry_id@ && self.attr_id@ == other.attr_id@
    }
}

/// The translation data of one language.
pub struct Locale {
    store: PatternStore,
}

impl Locale {
    /// The store this locale resolves against.
    pub closed spec fn store_spec(&self) -> PatternStore {
        self.store
    }

    /// A locale for `lang` over the resources parsed from `texts`, which must
    /// merge into one store (as `check` tells).
    pub fn new(lang: &LanguageTag, texts: Vec<String>) -> (r: Locale)
        requires
            crate::store::texts_load(crate::store::texts_view(texts@)),
        ensures
            r.store_spec().locale() == lang@,
            r.store_spec().sources() == crate::store::texts_view(texts@),
    {
        Locale { store: PatternStore::build(lang, texts) }
    }

    /// Whether the resources parsed from `texts` make a locale for `lang`:
    /// `Syntax` where a text does not parse, `DuplicateId` where two
    /// resources define the same id.
    pub fn check(lang: &LanguageTag, texts: &Vec<String>) -> (r: Result<(), Vec<Error>>)
        ensures
            r is Ok <==> crate::store::texts_load(crate::store::texts_view(texts@)),
            r matches Err(e) ==> crate::store::load_failure(e@, crate::store::texts_view(texts@)),
    {
        PatternStore::check(lang, texts)
    }

    /// Resolves `query` into a message, or into the list of errors met.
    pub fn query(&self, query: &Query) -> (r: Result<Message, Vec<Error>>)
        requires
            query.wf(),
        ensures
            resolves_to(r, self.store_spec(), *query),
    {
        let ghost store = self.store;
        let ghost q = *query;
        let id = query.id();
        let (has_value, attrs) = match self.store.outline(id.as_str()) {
            Some(o) => o,
            None => {
                let mut errors: Vec<Error> = Vec::new();
                errors.push(Error::MessageNotFound { id: id.clone() });
                proof {
                    assert(errors@ =~= resolution_errors(store, q));
                }
                return Err(errors);
            },
        };
        let ghost attrs_v = crate::store::texts_view(attrs@);
        let mut errors: Vec<Error> = Vec::new();
        let value = if has_value {
            match self.store.format_value(id.as_str(), Some(query.args())) {
                Some((text, faults)) => {
                    errors = from_faults(faults);
                    text
                },
                None => String::new(),
            }
        } else {
            let mut text = String::from_str("<");
            text.append(id.as_str());
            text.append(">");
            proof {
                reveal_strlit("<");
                reveal_strlit(">");
                assert(text@ =~= placeholder(q.id_string()@));
            }
            text
        };
        proof {
            assert(value@ == main_outcome(store, q, has_value).0);
            assert(errors@ == main_outcome(store, q, has_value).1);
            assert(attrs_v.take(0) =~= Seq::<Seq<char>>::empty());
        }
        let ghost main_errs = errors@;
        let mut handles: Vec<(String, AttrCache)> = Vec::new();
        let mut i: usize = 0;
        while i < attrs.len()
            invariant
                store == self.store,
                q == *query,
                *id == q.id_string(),
                q.wf(),
                attrs_v == crate::store::texts_view(attrs@),
                i <= attrs@.len(),
                errors@ == main_errs + attrs_errors(store, q, attrs_v.take(i as int)),
                handles@.len() == i,
                forall|j: int| 0 <= j < i ==> (#[trigger] handles@[j]).0@ == attrs_v[j]
                    && handle_matches(handles@[j].1, store, q, attrs_v[j]),
            decreases attrs@.len() - i,
        {
            let attr = &attrs[i];
            let explicit = query.attr_args_for(attr.as_str());
            let formatted = self.store.format_attribute(id.as_str(), attr.as_str(), explicit);
            proof {
                assert(attr@ == attrs_v[i as int]);
                assert(attrs_v.contains(attr@));
                assert(opt_args(explicit) == q.explicit_args(attr@));
            }
            let mut cached: Option<String> = None;
            match formatted {
                Some((text, faults)) => {
                    if faults.len() == 0 {
                        cached = Some(text);
                    } else if explicit.is_none() && all_missing_variables(&faults) {
                    } else {
                        let mut more = from_faults(faults);
                        errors.append(&mut more);
                    }
                },
                None => {},
            }
            let handle = AttrCache { entry_id: id.clone(), attr_id: attr.clone(), value: cached, store: self.store.share() };
            handles.push((attr.clone(), handle));
            proof {
                assert(attrs_v.take(i + 1).drop_last() =~= attrs_v.take(i as int));
                assert(attrs_v.take(i + 1).last() == attrs_v[i as int]);
            }
            i = i + 1;
        }
        proof {
            assert(attrs_v.take(attrs_v.len() as int) =~= attrs_v);
        }
        let mut missing = self.unmatched(query, &attrs);
        errors.append(&mut missing);
        proof {
            assert(errors@ =~= resolution_errors(store, q));
        }
        if errors.len() > 0 {
            return Err(errors);
        }
        Ok(Message { id: id.clone(), value, attrs: handles })
    }

    /// `AttributeNotFound` for each attribute name of `query` with explicit
    /// arguments that `attrs` does not declare.
    fn unmatched(&self, query: &Query, attrs: &Vec<String>) -> (r: Vec<Error>)
        ensures
            r@ == unmatched_errors(query.id_string(), query.attr_keys(), crate::store::texts_view(attrs@)),
    {
        let ghost attrs_v = crate::store::texts_view(attrs@);
        let ghost keys = query.attr_keys();
        let mut r: Vec<Error> = Vec::new();
        let n = query.attr_arg_count();
        let mut i: usize = 0;
        while i < n
            invariant
                n == keys.len(),
                keys == query.attr_keys(),
                attrs_v == crate::store::texts_view(attrs@),
                i <= n,
                r@ == unmatched_errors(query.id_string(), keys.take(i as int), attrs_v),
            decreases n - i,
        {
            let key = query.attr_arg_name(i);
            let declared = crate::store::contains_text(attrs, key);
            if !declared {
                r.push(Error::AttributeNotFound { message_id: query.id().clone(), attr_id: key.clone() });
            }
            proof {
                assert(keys.take(i + 1).drop_last() =~= keys.take(i as int));
                assert(keys.take(i + 1).last() == keys[i as int]);
            }
            i = i + 1;
        }
        proof {
            assert(keys.take(n as int) =~= keys);
        }
        r
    }
}

/// Whether every fault only reports a missing variable.
fn all_missing_variables(faults: &Vec<crate::error::FluentFault>) -> (r: bool)
    ensures
        r == only_missing_variables(faults@),
{
    let mut i: usize = 0;
    while i < faults.len()
        invariant
            i <= faults@.len(),
            forall|j: int| 0 <= j < i ==> #[trigger] crate::error::is_missing_variable(faults@[j]),
        decreases faults@.len() - i,
    {
        if !fault_is_missing_variable(&faults[i]) {
            return false;
        }
        i = i + 1;
    }
    true
}

} // verus!

use crate::args::ArgModel;
use crate::error::{fault_error, fault_errors, is_missing_variable, only_missing_variables, Error};
use crate::locale::{answers, attr_outcome, attrs_errors, resolution_errors, resolves_to, unmatched_errors, AttrCache, Message};
use crate::query::Query;
use crate::registry::{ErrorObserver, Locales};
use crate::store::{formatted_attribute, message_outline, outline_has_attr, PatternStore};
use vstd::prelude::*;

verus! {

/// The text of a successful result, `None` for an error.
pub open spec fn ok_text(r: Result<String, Vec<Error>>) -> Option<Seq<char>> {
    match r {
        Ok(s) => Some(s@),
        Err(_) => None,
    }
}

/// A query for a language without a locale has exactly the outcome of the
/// same query for the fallback language.
pub proof fn lemma_absent_language_uses_fallback<O: ErrorObserver>(
    reg: Locales<O>,
    tag: Seq<char>,
    q: Query,
    r: Result<Message, Vec<Error>>,
)
    requires
        reg.wf(),
        reg.has_fallback(),
        reg.lookup(tag) is None,
    ensures
        resolves_to(r, reg.route(tag), q) <==> resolves_to(r, reg.route(reg.fallback()), q),
{
}

/// An attribute queried without explicit arguments, whose formatting fails
/// only on missing variables, contributes no error and stays unresolved.
pub proof fn lemma_deferred_attribute_is_no_error(store: PatternStore, q: Query, attr: Seq<char>)
    requires
        q.explicit_args(attr) is None,
        formatted_attribute(store.locale(), store.sources(), q.id_string()@, attr, None) matches Some((t, faults))
            && faults.len() > 0 && only_missing_variables(faults),
    ensures
        attr_outcome(store, q, attr).1.len() == 0,
        attr_outcome(store, q, attr).0 is None,
{
}

/// Every error of attribute `attrs[i]` is among the errors of `attrs`.
proof fn lemma_attrs_errors_include(store: PatternStore, q: Query, attrs: Seq<Seq<char>>, i: int, k: int)
    requires
        0 <= i < attrs.len(),
        0 <= k < attr_outcome(store, q, attrs[i]).1.len(),
    ensures
        attrs_errors(store, q, attrs).contains(attr_outcome(store, q, attrs[i]).1[k]),
    decreases attrs.len(),
{
    let prefix = attrs_errors(store, q, attrs.drop_last());
    let last = attr_outcome(store, q, attrs.last()).1;
    if i == attrs.len() - 1 {
        assert(attrs_errors(store, q, attrs)[prefix.len() + k] == last[k]);
    } else {
        assert(attrs.drop_last()[i] == attrs[i]);
        lemma_attrs_errors_include(store, q, attrs.drop_last(), i, k);
        let j = choose|j: int| 0 <= j < prefix.len() && prefix[j] == attr_outcome(store, q, attrs[i]).1[k];
        assert(attrs_errors(store, q, attrs)[j] == prefix[j]);
    }
}

/// An attribute queried with explicit arguments that lack a variable it uses
/// makes the whole query fail, with an `UndefinedVariable` error.
pub proof fn lemma_explicit_args_missing_variable_fail(
    store: PatternStore,
    q: Query,
    r: Result<Message, Vec<Error>>,
    attr: Seq<char>,
    k: int,
)
    requires
        resolves_to(r, store, q),
        message_outline(store.sources(), q.id_string()@) matches Some((v, attrs)) && attrs.contains(attr),
        q.explicit_args(attr) matches Some(m) && (formatted_attribute(store.locale(), store.sources(), q.id_string()@, attr, Some(m)) matches Some((t, faults))
            && 0 <= k < faults.len() && is_missing_variable(faults[k])),
    ensures
        r matches Err(e) && exists|j: int| 0 <= j < e@.len() && e@[j] is UndefinedVariable,
{
    let (v, attrs) = message_outline(store.sources(), q.id_string()@).unwrap();
    let m = q.explicit_args(attr).unwrap();
    let (t, faults) = formatted_attribute(store.locale(), store.sources(), q.id_string()@, attr, Some(m)).unwrap();
    let i = choose|i: int| 0 <= i < attrs.len() && attrs[i] == attr;
    let own = attr_outcome(store, q, attr).1;
    assert(own == fault_errors(faults));
    assert(own[k] == fault_error(faults[k]));
    lemma_attrs_errors_include(store, q, attrs, i, k);
    let ae = attrs_errors(store, q, attrs);
    let j = choose|j: int| 0 <= j < ae.len() && ae[j] == own[k];
    let errs = resolution_errors(store, q);
    let main_len = errs.len() - ae.len() - unmatched_errors(q.id_string(), q.attr_keys(), attrs).len();
    assert(errs[main_len + j] == ae[j]);
}

/// Each name in `keys` that `attrs` does not declare has its `AttributeNotFound`.
proof fn lemma_unmatched_include(id: String, keys: Seq<String>, attrs: Seq<Seq<char>>, i: int)
    requires
        0 <= i < keys.len(),
        !attrs.contains(keys[i]@),
    ensures
        unmatched_errors(id, keys, attrs).contains(Error::AttributeNotFound { message_id: id, attr_id: keys[i] }),
    decreases keys.len(),
{
    let prefix = unmatched_errors(id, keys.drop_last(), attrs);
    if i == keys.len() - 1 {
        assert(unmatched_errors(id, keys, attrs)[prefix.len() as int] == Error::AttributeNotFound { message_id: id, attr_id: keys[i] });
    } else {
        assert(keys.drop_last()[i] == keys[i]);
        lemma_unmatched_include(id, keys.drop_last(), attrs, i);
        let j = choose|j: int| 0 <= j < prefix.len() && prefix[j] == Error::AttributeNotFound { message_id: id, attr_id: keys[i] };
        assert(unmatched_errors(id, keys, attrs)[j] == prefix[j]);
    }
}

/// Explicit arguments for an attribute that the message does not declare
/// make the query fail with `AttributeNotFound`, whatever became of the value.
pub proof fn lemma_unknown_attribute_is_reported(store: PatternStore, q: Query, r: Result<Message, Vec<Error>>, i: int)
    requires
        resolves_to(r, store, q),
        message_outline(store.sources(), q.id_string()@) matches Some((v, attrs)) && !attrs.contains(q.attr_keys()[i]@),
        0 <= i < q.attr_keys().len(),
    ensures
        r matches Err(e) && e@.contains(Error::AttributeNotFound { message_id: q.id_string(), attr_id: q.attr_keys()[i] }),
{
    let (v, attrs) = message_outline(store.sources(), q.id_string()@).unwrap();
    lemma_unmatched_include(q.id_string(), q.attr_keys(), attrs, i);
    let un = unmatched_errors(q.id_string(), q.attr_keys(), attrs);
    let x = Error::AttributeNotFound { message_id: q.id_string(), attr_id: q.attr_keys()[i] };
    let j = choose|j: int| 0 <= j < un.len() && un[j] == x;
    let errs = resolution_errors(store, q);
    assert(errs[errs.len() - un.len() + j] == un[j]);
}

/// Where resolving `q` gives the message `m`, an uncached handle on the
/// attribute at index `x` of `m`, queried with the explicit arguments that
/// `q` gives that attribute and then once more without arguments, returns
/// both times the text that `m` holds for the attribute.
pub proof fn lemma_lazy_round_trip(
    store: PatternStore,
    q: Query,
    m: Message,
    x: int,
    args: Map<Seq<char>, ArgModel>,
    h0: AttrCache,
    h1: AttrCache,
    r1: Result<String, Vec<Error>>,
    h2: AttrCache,
    r2: Result<String, Vec<Error>>,
)
    requires
        resolves_to(Ok(m), store, q),
        0 <= x < m.attrs@.len(),
        q.explicit_args(m.attrs@[x].0@) == Some(args),
        h0.value is None,
        h0.store == store,
        h0.entry_id@ == q.id_string()@,
        h0.attr_id@ == m.attrs@[x].0@,
        answers(h0, h1, Some(args), r1),
        answers(h1, h2, None, r2),
    ensures
        m.attrs@[x].1.value matches Some(s) && ok_text(r1) == Some(s@) && ok_text(r2) == Some(s@),
{
    let (v, attrs) = message_outline(store.sources(), q.id_string()@).unwrap();
    let attr = attrs[x];
    assert(m.attrs@[x].0@ == attr);
    assert(attrs.contains(attr));
    let own = attr_outcome(store, q, attr).1;
    if own.len() > 0 {
        lemma_attrs_errors_include(store, q, attrs, x, 0);
        let ae = attrs_errors(store, q, attrs);
        let j = choose|j: int| 0 <= j < ae.len() && ae[j] == own[0];
        let errs = resolution_errors(store, q);
        let main_len = errs.len() - ae.len() - unmatched_errors(q.id_string(), q.attr_keys(), attrs).len();
        assert(errs[main_len + j] == ae[j]);
    }
    assert(formatted_attribute(store.locale(), store.sources(), q.id_string()@, attr, Some(args)) is Some);
}

} // verus!

use fluent_bundle::FluentArgs;
use vstd::prelude::*;

verus! {

#[verifier::external_type_specification]
#[verifier::external_body]
pub struct ExFluentArgs<'a>(FluentArgs<'a>);

/// The largest magnitude of an integer that a Fluent number holds exactly.
pub const MAX_EXACT_INTEGER: i64 = 9007199254740992;

/// A value handed to a pattern, as the formatter sees it.
pub enum ArgModel {
    Text(Seq<char>),
    Number(int),
}

/// The empty argument map.
pub open spec fn no_args() -> Map<Seq<char>, ArgModel> {
    Map::empty()
}

/// What a Fluent argument map holds: each name with its value.
pub uninterp spec fn args_entries(a: FluentArgs<'static>) -> Map<Seq<char>, ArgModel>;

/// Relies on `FluentArgs::new`: a new argument map is empty.
#[verifier::external_body]
fn fluent_args_new() -> (r: FluentArgs<'static>)
    ensures
        args_entries(r) == no_args(),
{
    FluentArgs::new()
}

/// Relies on `FluentArgs::set` with a string value: the key is bound to the
/// text, replacing any earlier binding of the same key.
#[verifier::external_body]
fn fluent_args_set_text(a: &mut FluentArgs<'static>, key: &str, value: &str)
    ensures
        args_entries(*final(a)) == args_entries(*old(a)).insert(key@, ArgModel::Text(value@)),
{
    a.set(key.to_string(), value.to_string())
}

/// Relies on `FluentArgs::set` with an integer value: the key is bound to the
/// number, replacing any earlier binding of the same key. Fluent keeps the
/// number as an `f64`, which holds every integer up to 2^53 exactly.
#[verifier::external_body]
fn fluent_args_set_number(a: &mut FluentArgs<'static>, key: &str, value: i64)
    requires
        -MAX_EXACT_INTEGER <= value <= MAX_EXACT_INTEGER,
    ensures
        args_entries(*final(a)) == args_entries(*old(a)).insert(key@, ArgModel::Number(value as int)),
{
    a.set(key.to_string(), value)
}

/// Named arguments for a pattern: a map from variable name to value.
pub struct Args {
    inner: FluentArgs<'static>,
}

impl View for Args {
    type V = Map<Seq<char>, ArgModel>;

    closed spec fn view(&self) -> Map<Seq<char>, ArgModel> {
        args_entries(self.inner)
    }
}

impl Args {
    /// An empty argument map.
    pub fn new() -> (r: Args)
        ensures
            r@ == no_args(),
    {
        Args { inner: fluent_args_new() }
    }

    /// Binds `key` to a text value.
    pub fn set(&mut self, key: &str, value: &str)
        ensures
            final(self)@ == old(self)@.insert(key@, ArgModel::Text(value@)),
    {
        fluent_args_set_text(&mut self.inner, key, value);
    }

    /// Binds `key` to a number, of at most 2^53 in magnitude.
    pub fn set_number(&mut self, key: &str, value: i64)
        requires
            -MAX_EXACT_INTEGER <= value <= MAX_EXACT_INTEGER,
        ensures
            final(self)@ == old(self)@.insert(key@, ArgModel::Number(value as int)),
    {
        fluent_args_set_number(&mut self.inner, key, value);
    }

    pub(crate) fn fluent(&self) -> (r: &FluentArgs<'static>)
        ensures
            args_entries(*r) == self@,
    {
        &self.inner
    }
}

} // verus!

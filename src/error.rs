use fluent_bundle::resolver::errors::{ReferenceKind, ResolverError};
use vstd::prelude::*;

verus! {

#[verifier::external_type_specification]
pub struct ExResolverError(ResolverError);

#[verifier::external_type_specification]
pub struct ExReferenceKind(ReferenceKind);

/// Everything that can go wrong while building or querying localization data.
#[derive(Debug, Clone, PartialEq, Eq)]
pub enum Error {
    /// The requested message id is not defined.
    MessageNotFound { id: String },
    /// The message exists, but it declares no attribute of that name.
    AttributeNotFound { message_id: String, attr_id: String },
    /// A pattern refers to a variable that the arguments do not provide.
    UndefinedVariable { id: String },
    /// A pattern refers to a message (or one of its attributes) that is not defined.
    UndefinedMessage { id: String, attribute: Option<String> },
    /// A pattern refers to a term (or one of its attributes) that is not defined.
    UndefinedTerm { id: String, attribute: Option<String> },
    /// A pattern calls a function that is not registered.
    UndefinedFunction { id: String },
    /// A pattern refers, directly or indirectly, to itself.
    CyclicReference,
    /// A referenced message has no value.
    NoValue { id: String },
    /// A select expression has no default variant.
    MissingDefault,
    /// Formatting went over the limit of placeables.
    TooManyPlaceables,
    /// Two resources of one language define the same message or term id.
    DuplicateId { id: String },
    /// A resource text is not valid Fluent syntax.
    Syntax,
    /// A language tag could not be parsed.
    InvalidLanguageTag { tag: String },
}

/// An error as Fluent reports it, one variant for each of Fluent's own.
#[derive(Debug)]
pub enum FluentFault {
    /// An entry id that an earlier resource already defined.
    Overriding { id: String },
    /// A syntax error in a resource.
    Parser,
    /// An error met while formatting a pattern.
    Resolver(ResolverError),
}

/// The library's error for an error met while formatting.
pub open spec fn resolver_error(r: ResolverError) -> Error {
    match r {
        ResolverError::Reference(k) => match k {
            ReferenceKind::Function { id } => Error::UndefinedFunction { id },
            ReferenceKind::Message { id, attribute } => Error::UndefinedMessage { id, attribute },
            ReferenceKind::Term { id, attribute } => Error::UndefinedTerm { id, attribute },
            ReferenceKind::Variable { id } => Error::UndefinedVariable { id },
        },
        ResolverError::NoValue(id) => Error::NoValue { id },
        ResolverError::MissingDefault => Error::MissingDefault,
        ResolverError::Cyclic => Error::CyclicReference,
        ResolverError::TooManyPlaceables => Error::TooManyPlaceables,
    }
}

/// The library's error for an error reported by Fluent.
pub open spec fn fault_error(f: FluentFault) -> Error {
    match f {
        FluentFault::Overriding { id } => Error::DuplicateId { id },
        FluentFault::Parser => Error::Syntax,
        FluentFault::Resolver(r) => resolver_error(r),
    }
}

/// Whether a fault only reports a variable that the arguments did not supply.
pub open spec fn is_missing_variable(f: FluentFault) -> bool {
    f matches FluentFault::Resolver(ResolverError::Reference(ReferenceKind::Variable { .. }))
}

/// Whether every fault only reports a missing variable.
pub open spec fn only_missing_variables(fs: Seq<FluentFault>) -> bool {
    forall|i: int| 0 <= i < fs.len() ==> #[trigger] is_missing_variable(fs[i])
}

/// The library's errors for a sequence of faults, in order.
pub open spec fn fault_errors(fs: Seq<FluentFault>) -> Seq<Error> {
    fs.map_values(|f: FluentFault| fault_error(f))
}

/// Converts a fault reported by Fluent into the library's error.
pub fn from_fault(f: FluentFault) -> (r: Error)
    ensures
        r == fault_error(f),
{
    match f {
        FluentFault::Overriding { id } => Error::DuplicateId { id },
        FluentFault::Parser => Error::Syntax,
        FluentFault::Resolver(r) => match r {
            ResolverError::Reference(k) => match k {
                ReferenceKind::Function { id } => Error::UndefinedFunction { id },
                ReferenceKind::Message { id, attribute } => Error::UndefinedMessage { id, attribute },
                ReferenceKind::Term { id, attribute } => Error::UndefinedTerm { id, attribute },
                ReferenceKind::Variable { id } => Error::UndefinedVariable { id },
            },
            ResolverError::NoValue(id) => Error::NoValue { id },
            ResolverError::MissingDefault => Error::MissingDefault,
            ResolverError::Cyclic => Error::CyclicReference,
            ResolverError::TooManyPlaceables => Error::TooManyPlaceables,
        },
    }
}

/// Whether a fault only reports a missing variable.
pub fn fault_is_missing_variable(f: &FluentFault) -> (r: bool)
    ensures
        r == is_missing_variable(*f),
{
    match f {
        FluentFault::Resolver(ResolverError::Reference(ReferenceKind::Variable { .. })) => true,
        _ => false,
    }
}

/// Converts a list of faults, keeping their order.
pub fn from_faults(fs: Vec<FluentFault>) -> (r: Vec<Error>)
    ensures
        r@ == fault_errors(fs@),
{
    let mut r: Vec<Error> = Vec::new();
    let mut rest = fs;
    let ghost all = rest@;
    while rest.len() > 0
        invariant
            rest@ == all.skip(r@.len() as int),
            r@ == fault_errors(all.take(r@.len() as int)),
            r@.len() <= all.len(),
            all == fs@,
        decreases rest.len(),
    {
        let ghost k = r@.len() as int;
        let f = rest.remove(0);
        r.push(from_fault(f));
        proof {
            assert(all.take(k + 1) =~= all.take(k).push(all[k]));
            assert(rest@ =~= all.skip(k + 1));
            assert(r@ =~= fault_errors(all.take(k + 1)));
        }
    }
    proof {
        assert(all.take(all.len() as int) =~= all);
    }
    r
}

} // verus!

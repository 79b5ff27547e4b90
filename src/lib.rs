//! Resolution of translation queries against per-language Fluent bundles,
//! with locale fallback, error aggregation and lazily resolved attributes.

mod args;
mod catalog;
mod error;
mod langid;
pub mod laws;
mod locale;
mod query;
mod registry;
mod store;
mod tag;

pub use args::{ArgModel, Args, MAX_EXACT_INTEGER};
pub use catalog::{load_locales, missing_keys, resource_keys, LoadIssue, SourceFile};
pub use error::{Error, FluentFault};
pub use langid::{langid_to_country_code, langid_to_dir, langid_to_flag, langid_to_iso639, Lang};
pub use locale::{AttrCache, Locale, Message};
pub use query::Query;
pub use registry::{attr, langs, tr, ErrorObserver, Locales, LocalizedDisplay, NoObserver};
pub use store::PatternStore;
pub use tag::LanguageTag;

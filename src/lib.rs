//! Locale-aware message lookup: locale identifiers, locale discovery,
//! negotiation of served locales, bundle assembly and ordered lookup.

pub mod locale;
pub mod negotiate;
pub mod discovery;
pub mod bundle;
pub mod localization;
pub mod snapshot;
pub mod assets;

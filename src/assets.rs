//! Bundle assets: a bundle built from a manifest record, together with the
//! handles of the resources it depends on.

use crate::bundle::{all_conflicts, keys_of, merge_all, message_entries, resource_count, str_views, Bundle};
use crate::locale::{opt_locale_view, LocaleId};
use fluent::FluentResource;
use std::sync::Arc;
use vstd::prelude::*;

verus! {

/// A manifest record: the locale of a bundle and the paths of its resources.
pub struct Data {
    pub locale: LocaleId,
    pub resources: Vec<String>,
}

impl Data {
    pub fn new(locale: LocaleId, resources: Vec<String>) -> (r: Data)
        ensures
            r.locale@ == locale@,
            r.resources@ == resources@,
    {
        Data { locale, resources }
    }

    pub fn locale(&self) -> (r: &LocaleId)
        ensures
            r == &self.locale,
    {
        &self.locale
    }

    pub fn resources(&self) -> (r: &Vec<String>)
        ensures
            r == &self.resources,
    {
        &self.resources
    }

    pub fn resources_mut(&mut self) -> (r: &mut Vec<String>)
        ensures
            *r == old(self).resources,
            *final(r) == final(self).resources,
            final(self).locale == old(self).locale,
    {
        &mut self.resources
    }
}

/// A bundle and the handles of the resources it was built from.
pub struct BundleAsset {
    pub bundle: Bundle,
    pub resource_handles: Vec<u64>,
}

impl BundleAsset {
    pub fn bundle(&self) -> (r: &Bundle)
        ensures
            r == &self.bundle,
    {
        &self.bundle
    }

    pub fn resource_handles(&self) -> (r: &Vec<u64>)
        ensures
            r == &self.resource_handles,
    {
        &self.resource_handles
    }

    pub fn resource_handles_mut(&mut self) -> (r: &mut Vec<u64>)
        ensures
            *r == old(self).resource_handles,
            *final(r) == final(self).resource_handles,
            final(self).bundle == old(self).bundle,
    {
        &mut self.resource_handles
    }
}

/// Builds the asset of a manifest record from its resources, already read and
/// parsed in the record's order, and their handles.
pub fn load(data: &Data, resources: &Vec<Arc<FluentResource>>, resource_handles: Vec<u64>) -> (r:
    BundleAsset)
    ensures
        message_entries(r.bundle.messages) == merge_all(keys_of(resources@)),
        resource_count(r.bundle.messages) == resources@.len(),
        opt_locale_view(r.bundle.locale) == Some(data.locale@),
        str_views(r.bundle.conflicts@) == all_conflicts(keys_of(resources@)),
        r.resource_handles@ == resource_handles@,
{
    let bundle = Bundle::build(Some(data.locale.duplicate()), resources);
    BundleAsset { bundle, resource_handles }
}

} // verus!

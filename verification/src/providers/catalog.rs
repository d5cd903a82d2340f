//! Short names for building catalog providers.

use vstd::prelude::*;

use crate::model::Catalog;
use crate::service::CachingCatalogProvider;
use crate::service::CatalogProvider;
use crate::service::JsonFileCatalogProvider;
use crate::service::SingleCatalogProvider;

verus! {

/// A provider over the given in-memory catalog.
pub fn single(catalog: Catalog) -> (r: SingleCatalogProvider)
    ensures
        r@ == catalog@,
{
    SingleCatalogProvider::new(catalog)
}

/// A provider over the JSON document at `path`.
pub fn file_json(path: &str) -> (r: JsonFileCatalogProvider)
    ensures
        r.path_view() == path@,
{
    JsonFileCatalogProvider::new(path)
}

/// A caching decorator over `provider`.
pub fn cache<T: CatalogProvider>(provider: T) -> (r: CachingCatalogProvider<T>)
    ensures
        r.wrapped() == provider,
{
    CachingCatalogProvider::new(provider)
}

} // verus!

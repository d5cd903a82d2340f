//! The decision half of the HTTP boundary: what status and body one catalog
//! request gets for a given provider outcome. The route itself, and the
//! transport, belong to the embedding application.

use vstd::prelude::*;

use std::sync::Arc;

use crate::codec;
use crate::json;
use crate::model::Catalog;
use crate::service::CatalogError;

verus! {

/// Status code and body of the catalog route's response: on success, two
/// hundred with the catalog's canonical document; on any failure, five
/// hundred with an empty body, so that no internal detail reaches the
/// client.
pub fn catalog_response(outcome: Result<Arc<Catalog>, CatalogError>) -> (r: (u16, String))
    ensures
        outcome matches Ok(c) ==> r.0 == 200 && r.1@ == json::print_catalog(c@),
        outcome matches Err(e) ==> r.0 == 500 && r.1@ == Seq::<char>::empty(),
{
    match outcome {
        Ok(c) => (200, codec::to_json(&c)),
        Err(_) => (500, String::new()),
    }
}

} // verus!

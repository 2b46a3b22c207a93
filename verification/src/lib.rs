//! A small HTTP response envelope library.
//!
//! Application code produces a [`responses::WebResult`]: either a success
//! JSON payload or an [`responses::ErrorResponse`] holding one or more
//! JSON:API-style error objects.  [`render::RenderedResponse`] is the
//! framework-neutral rendering of such an envelope: an HTTP status code,
//! an optional `X-Total-Count` header value, and a JSON body.

use vstd::prelude::*;

pub mod json;
pub mod render;
pub mod responses;
pub mod typed;

verus! {

/// Pagination options for list endpoints.
///
/// Skip as many entries as specified in `offset`, default 0.
/// List at most as many entries as specified in `limit`, default 100.
#[derive(Debug, Clone)]
pub struct ListOptions {
    pub offset: Option<u64>,
    pub limit: Option<u64>,
    pub order: Option<ListOrder>,
    pub sort: Option<String>,
}

impl Default for ListOptions {
    fn default() -> (r: Self)
        ensures
            r.offset is None,
            r.limit == Some(100u64),
            r.order is None,
            r.sort is None,
    {
        Self { offset: None, limit: Some(100), order: None, sort: None }
    }
}

/// Sort direction for list endpoints.
#[derive(Debug, Clone, PartialEq, Eq, Structural)]
pub enum ListOrder {
    Asc,
    Desc,
}

} // verus!

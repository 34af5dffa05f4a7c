//! The envelope in which a server hands out one page of a list.

use vstd::prelude::*;

verus! {

/// Where a page stands in its list. Every part is optional.
#[derive(Debug, Clone, PartialEq, Eq, Default)]
pub struct Pagination {
    pub total_elements: Option<usize>,
    pub elements_per_page: Option<usize>,
    pub current_page: Option<usize>,
    pub total_pages: Option<usize>,
}

/// The URLs of neighbouring pages. Every part is optional.
#[derive(Debug, Clone, PartialEq, Eq, Default)]
pub struct Links {
    pub next: Option<String>,
    pub first: Option<String>,
    pub self_: Option<String>,
    pub last: Option<String>,
}

/// One page of a list of `T`.
#[derive(Debug)]
pub struct ExternalList<T> {
    pub data: Vec<T>,
    pub pagination: Pagination,
    pub links: Links,
}

} // verus!

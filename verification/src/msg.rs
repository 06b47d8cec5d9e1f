//! Message metadata: the paging envelope carried alongside contract
//! messages and queries.

use vstd::prelude::*;

verus! {

use crate::page::{PageMsg, PageQuery};

/// Metadata attached to a response message: the page it covers, if any.
#[derive(Debug, Clone, Copy, PartialEq, Eq)]
pub struct MetadataMsg {
    pub page: Option<PageMsg>,
}

impl MetadataMsg {
    /// Records the page this message covers.
    pub fn add_page(&mut self, index: u128, end: u128)
        ensures
            final(self).page == Some(PageMsg { index, end }),
    {
        self.page = Some(PageMsg { index, end });
    }
}

impl Default for MetadataMsg {
    /// No page recorded.
    fn default() -> (r: Self)
        ensures
            r.page is None,
    {
        MetadataMsg { page: None }
    }
}

/// A message wrapped together with its metadata.
#[derive(Debug, Clone, PartialEq, Eq)]
pub struct MetaMsg<T> {
    pub meta: MetadataMsg,
    pub data: T,
}

impl<T> MetaMsg<T> {
    /// Wraps a message with empty metadata.
    pub fn new(data: T) -> (r: Self)
        ensures
            r.meta.page is None,
            r.data == data,
    {
        MetaMsg { meta: MetadataMsg::default(), data }
    }

    /// Records the page this message covers.
    pub fn add_metadata_page(&mut self, index: u128, end: u128)
        ensures
            final(self).meta.page == Some(PageMsg { index, end }),
            final(self).data == old(self).data,
    {
        self.meta.add_page(index, end);
    }
}

/// Metadata attached to a query: the page it asks for, if any.
#[derive(Debug, Clone, Copy, PartialEq, Eq)]
pub struct MetadataQuery {
    pub page: Option<PageQuery>,
}

/// A query wrapped together with its optional metadata.
#[derive(Debug, Clone, PartialEq, Eq)]
pub struct MetaQuery<T> {
    pub meta: Option<MetadataQuery>,
    pub query: T,
}

} // verus!

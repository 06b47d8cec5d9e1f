//! Paging arithmetic: turning a page query into index bounds under the
//! contract's paging limits.

use vstd::prelude::*;

verus! {

use crate::error::Error;
use crate::math::Range;

/// The page a response message covers.
#[derive(Debug, Clone, Copy, PartialEq, Eq)]
pub struct PageMsg {
    pub index: u128,
    pub end: u128,
}

/// A page request: the page number and an optional page size.
#[derive(Debug, Clone, Copy, PartialEq, Eq)]
pub struct PageQuery {
    pub index: u128,
    pub limit: Option<u32>,
}

/// The paging limits a contract enforces: the page size used when the query
/// names none, the largest size a caller may ask for, and the number of
/// items that exist.
#[derive(Debug, Clone, Copy, PartialEq, Eq)]
pub struct PageLimits {
    pub default_limit: u32,
    pub max_limit: u32,
    pub max_items: u128,
}

impl PageLimits {
    /// The page size a query asks for, after the default is applied.
    pub open spec fn spec_limit(self, page: PageQuery) -> u32 {
        match page.limit {
            Option::Some(l) => l,
            Option::None => self.default_limit,
        }
    }

    /// Builds the limits record.
    pub fn new(default_limit: u32, max_limit: u32, max_items: u128) -> (r: Self)
        ensures
            r == (PageLimits { default_limit, max_limit, max_items }),
    {
        PageLimits { default_limit, max_limit, max_items }
    }

    /// The index of the first item of the requested page: the page number
    /// times the page size. A size over the maximum, or a start at or past
    /// the item count, is an `Input` error.
    pub fn start_index(&self, page: PageQuery) -> (r: Result<u128, Error>)
        requires
            self.spec_limit(page) <= self.max_limit ==> page.index * self.spec_limit(page)
                <= u128::MAX,
        ensures
            self.spec_limit(page) > self.max_limit ==> r == Err::<u128, Error>(Error::Input {  }),
            self.spec_limit(page) <= self.max_limit ==> {
                let start = page.index * self.spec_limit(page);
                if start >= self.max_items {
                    r == Err::<u128, Error>(Error::Input {  })
                } else {
                    r == Ok::<u128, Error>((start as u128))
                }
            },
    {
        let limit = match page.limit {
            Some(l) => l,
            None => self.default_limit,
        };
        if limit > self.max_limit {
            return Err(Error::Input {  });
        }
        let start = page.index * (limit as u128);
        if start >= self.max_items {
            Err(Error::Input {  })
        } else {
            Ok(start)
        }
    }

    /// The index just past the requested page, clamped to the item count:
    /// the page number times one more than the page size. A size over the
    /// maximum is an `Input` error.
    pub fn end_index(&self, page: PageQuery) -> (r: Result<u128, Error>)
        requires
            self.spec_limit(page) <= self.max_limit ==> self.spec_limit(page) < u32::MAX
                && page.index * (self.spec_limit(page) + 1) <= u128::MAX,
        ensures
            self.spec_limit(page) > self.max_limit ==> r == Err::<u128, Error>(Error::Input {  }),
            self.spec_limit(page) <= self.max_limit ==> {
                let end = page.index * (self.spec_limit(page) + 1);
                if end > self.max_items {
                    r == Ok::<u128, Error>(self.max_items)
                } else {
                    r == Ok::<u128, Error>((end as u128))
                }
            },
    {
        let limit = match page.limit {
            Some(l) => l,
            None => self.default_limit,
        };
        if limit > self.max_limit {
            return Err(Error::Input {  });
        }
        let end = page.index * ((limit + 1) as u128);
        Ok(
            if end > self.max_items {
                self.max_items
            } else {
                end
            },
        )
    }

    /// Full paging information for an optional page query: the page message
    /// to echo back and the index range to walk. A missing query means the
    /// first page at the default size. A zero or over-maximum size, or a
    /// start past the item count, is an `Input` error; an overflow while
    /// placing the page is a `Generic` error.
    pub fn page_info(&self, query: Option<PageQuery>) -> (r: Result<(PageMsg, Range<u128>), Error>)
        ensures
            ({
                let index = match query {
                    Option::Some(q) => q.index,
                    Option::None => 0,
                };
                let limit = match query {
                    Option::Some(q) => self.spec_limit(q),
                    Option::None => self.default_limit,
                };
                if limit == 0 || limit > self.max_limit {
                    r == Err::<(PageMsg, Range<u128>), Error>(Error::Input {  })
                } else if index * limit > u128::MAX {
                    r matches Err(e) && e is Generic
                } else if index * limit > self.max_items {
                    r == Err::<(PageMsg, Range<u128>), Error>(Error::Input {  })
                } else if index * limit + limit > u128::MAX {
                    r matches Err(e) && e is Generic
                } else {
                    let start = index * limit;
                    let end = if start + limit > self.max_items {
                        self.max_items as int
                    } else {
                        start + limit
                    };
                    r == Ok::<(PageMsg, Range<u128>), Error>(
                        (PageMsg { index, end: end as u128 }, Range {
                            low: (start as u128),
                            high: end as u128,
                        }),
                    )
                }
            }),
    {
        let (index, limit) = match query {
            Some(q) => (
                q.index,
                match q.limit {
                    Some(l) => l,
                    None => self.default_limit,
                },
            ),
            None => (0u128, self.default_limit),
        };
        if limit == 0 || limit > self.max_limit {
            return Err(Error::Input {  });
        }
        let start = match index.checked_mul(limit as u128) {
            Some(s) => s,
            None => {
                return Err(Error::Generic { msg: String::from_str("overflow") });
            },
        };
        if start > self.max_items {
            return Err(Error::Input {  });
        }
        let end_sum = match start.checked_add(limit as u128) {
            Some(s) => s,
            None => {
                return Err(Error::Generic { msg: String::from_str("overflow") });
            },
        };
        let end = if end_sum > self.max_items {
            self.max_items
        } else {
            end_sum
        };
        let page = PageMsg { index, end };
        let range = Range { low: start, high: end };
        Ok((page, range))
    }
}

} // verus!

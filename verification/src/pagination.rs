//! Pagination metadata: previous/next page links and the bounded page
//! window shown for navigation.

use vstd::prelude::*;

verus! {

pub open spec fn imax(a: int, b: int) -> int {
    if a >= b {
        a
    } else {
        b
    }
}

/// First page of the navigation window. The window spans every page
/// when there are at most five; otherwise it is five wide, centred on
/// the current page, shifted left when it would run past the last page
/// and floored at page one.
pub open spec fn window_start(current: int, total: int) -> int {
    if total <= 5 {
        1
    } else {
        let s0 = imax(current - 2, 1);
        let e0 = imax(current + 2, 5);
        if e0 > total {
            imax(s0 - (e0 - total), 1)
        } else {
            s0
        }
    }
}

/// Last page of the navigation window (inclusive).
pub open spec fn window_end(current: int, total: int) -> int {
    if total <= 5 {
        total
    } else {
        let e0 = imax(current + 2, 5);
        if e0 > total {
            total
        } else {
            e0
        }
    }
}

/// Pagination metadata for one result window.
pub struct Pagination {
    pub current_page: usize,
    pub prev_page: Option<usize>,
    pub next_page: Option<usize>,
    pub total_page: usize,
    pub limit: usize,
    /// Ascending page numbers shown for navigation.
    pub page_range: Vec<usize>,
}

impl Pagination {
    pub open spec fn wf(self, current: int, total: int, limit: int) -> bool {
        &&& self.current_page == current
        &&& self.total_page == total
        &&& self.limit == limit
        &&& self.prev_page == (if current > 1 {
            Some((current - 1) as usize)
        } else {
            None::<usize>
        })
        &&& self.next_page == (if current < total {
            Some((current + 1) as usize)
        } else {
            None::<usize>
        })
        &&& self.page_range@.len() == ({
            let s = window_start(current, total);
            let e = window_end(current, total);
            if e >= s {
                e - s + 1
            } else {
                0
            }
        })
        &&& forall|i: int|
            0 <= i < self.page_range@.len() ==> self.page_range@[i] == window_start(current, total)
                + i
    }

    pub fn new(current_page: usize, total_page: usize, limit: usize) -> (r: Pagination)
        requires
            current_page + 2 <= usize::MAX,
        ensures
            r.wf(current_page as int, total_page as int, limit as int),
    {
        let prev_page: Option<usize> = if current_page > 1 {
            Some(current_page - 1)
        } else {
            None
        };
        let next_page: Option<usize> = if current_page < total_page {
            Some(current_page + 1)
        } else {
            None
        };

        let (start, end): (usize, usize) = if total_page <= 5 {
            (1, total_page)
        } else {
            let s0: usize = if current_page >= 3 {
                current_page - 2
            } else {
                1
            };
            let e0: usize = if current_page + 2 >= 5 {
                current_page + 2
            } else {
                5
            };
            if e0 > total_page {
                let diff: usize = e0 - total_page;
                let s1: usize = if s0 > diff && s0 - diff >= 1 {
                    s0 - diff
                } else {
                    1
                };
                (s1, total_page)
            } else {
                (s0, e0)
            }
        };

        let mut page_range: Vec<usize> = Vec::new();
        if end >= start {
            let count: usize = end - start + 1;
            let mut idx: usize = 0;
            while idx < count
                invariant
                    idx <= count,
                    count == end - start + 1,
                    start >= 1,
                    end <= usize::MAX,
                    page_range@.len() == idx,
                    forall|i: int| 0 <= i < idx ==> page_range@[i] == start + i,
                decreases count - idx,
            {
                page_range.push(start + idx);
                idx += 1;
            }
        }

        Pagination { current_page, prev_page, next_page, total_page, limit, page_range }
    }
}

} // verus!

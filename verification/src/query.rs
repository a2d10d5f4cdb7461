//! Ordering choices of the media listing.

use vstd::prelude::*;

verus! {

/// Which way a listing runs.
#[derive(Clone, Copy, PartialEq, Eq, Structural)]
pub enum MediaOrderDirection {
    Asc,
    Desc,
}

/// What a media listing is ordered by.
#[derive(Clone, Copy, PartialEq, Eq, Structural)]
pub enum MediaOrderBy {
    AddedAt,
    ReleasedAt,
    Alphabetical,
    Rating,
    SeasonEpisode,
}

impl MediaOrderBy {
    /// The direction a column is listed in when the request names none:
    /// newest and best first, names and numbering in their natural order.
    pub fn get_default_direction(&self) -> (r: MediaOrderDirection)
        ensures
            r == match *self {
                MediaOrderBy::AddedAt => MediaOrderDirection::Desc,
                MediaOrderBy::ReleasedAt => MediaOrderDirection::Desc,
                MediaOrderBy::Rating => MediaOrderDirection::Desc,
                MediaOrderBy::Alphabetical => MediaOrderDirection::Asc,
                MediaOrderBy::SeasonEpisode => MediaOrderDirection::Asc,
            },
    {
        match self {
            MediaOrderBy::AddedAt | MediaOrderBy::ReleasedAt | MediaOrderBy::Rating => {
                MediaOrderDirection::Desc
            },
            MediaOrderBy::Alphabetical | MediaOrderBy::SeasonEpisode => MediaOrderDirection::Asc,
        }
    }
}

/// One page of a listing: what to fetch and what to tell the client
/// about its neighbours.
pub struct PageBounds {
    pub limit: u64,
    pub offset: u64,
    pub has_previous_page: bool,
    pub has_next_page: bool,
}

/// The page a listing request asks for: the cursor points at the last row
/// already seen, the page starts right after it, and twenty-five rows come
/// when no count is named. There is a previous page exactly when rows were
/// skipped, and a next page exactly when rows remain beyond this one.
pub fn page_bounds(after: Option<u64>, first: Option<i32>, count: u64) -> (r: PageBounds)
    requires
        after matches Some(a) ==> a < u64::MAX,
        first matches Some(f) ==> f >= 0,
    ensures
        r.limit == match first {
            Some(f) => f as u64,
            None => 25u64,
        },
        r.offset == match after {
            Some(a) => a + 1,
            None => 0int,
        },
        r.has_previous_page == (r.offset > 0),
        r.has_next_page == (r.offset + r.limit < count),
{
    let limit: u64 = match first {
        Some(f) => f as u64,
        None => 25,
    };
    let offset: u64 = match after {
        Some(a) => a + 1,
        None => 0,
    };
    let has_next_page = limit <= count && offset < count - limit;
    PageBounds { limit, offset, has_previous_page: offset > 0, has_next_page }
}

} // verus!

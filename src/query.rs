//! Checks on directory queries, and paging of their results.
use vstd::prelude::*;

verus! {

/// Why a page cannot be cut.
#[derive(Debug, Clone, Copy, PartialEq, Eq, Structural)]
pub enum PageError {
    /// Only one of the page index and the page size was given.
    Incomplete,
    /// The page index or the page size is zero.
    NotPositive,
}

/// The order in which search results are listed.
#[derive(Debug, Clone, Copy, PartialEq, Eq, Structural)]
pub enum SortMethod {
    /// Nearest first, for a geographic search.
    Distance,
    /// By name, in pinyin order.
    Pinyin,
    /// By identifier.
    Id,
}

/// The order a query's `sort` parameter asks for; identifier order unless it
/// names another.
pub open spec fn sort_method_of(sort: Option<Seq<char>>) -> SortMethod {
    match sort {
        Some(s) => if s == "Distance"@ {
            SortMethod::Distance
        } else if s == "Pinyin"@ {
            SortMethod::Pinyin
        } else {
            SortMethod::Id
        },
        None => SortMethod::Id,
    }
}

impl SortMethod {
    /// Reads the `sort` parameter of a query.
    pub fn from_query(sort: Option<&str>) -> (r: SortMethod)
        ensures
            r == sort_method_of(
                match sort {
                    Some(s) => Some(s@),
                    None => None,
                },
            ),
    {
        match sort {
            Some(s) => {
                let given = String::from_str(s);
                if given == String::from_str("Distance") {
                    SortMethod::Distance
                } else if given == String::from_str("Pinyin") {
                    SortMethod::Pinyin
                } else {
                    SortMethod::Id
                }
            },
            None => SortMethod::Id,
        }
    }
}

/// Why a geographic search cannot be made.
#[derive(Debug, Clone, Copy, PartialEq, Eq, Structural)]
pub enum GeoQueryError {
    /// Latitude, longitude and range were not all given, nor all left out.
    Incomplete,
}

/// Whether a query searches by distance: it does when latitude, longitude and
/// range are all given, and does not when none is; any other mix is refused.
pub fn geo_search_requested(has_lat: bool, has_lng: bool, has_range: bool) -> (r: Result<bool, GeoQueryError>)
    ensures
        has_lat && has_lng && has_range ==> r == Ok::<bool, GeoQueryError>(true),
        !has_lat && !has_lng && !has_range ==> r == Ok::<bool, GeoQueryError>(false),
        !(has_lat == has_lng && has_lng == has_range) ==> r == Err::<bool, GeoQueryError>(
            GeoQueryError::Incomplete,
        ),
{
    if has_lat && has_lng && has_range {
        Ok(true)
    } else if has_lat != has_lng || has_lat != has_range {
        Err(GeoQueryError::Incomplete)
    } else {
        Ok(false)
    }
}

/// Where the page starts, for 1-based `page_index`.
pub open spec fn page_start(page_index: u32, page_size: u32) -> int {
    (page_index - 1) * page_size
}

/// How many results the page holds.
pub open spec fn page_len(total: int, page_index: u32, page_size: u32) -> int {
    let start = page_start(page_index, page_size);
    if start < total {
        if start + page_size <= total { page_size as int } else { total - start }
    } else {
        0
    }
}

/// Cuts page `page_index` (counted from 1) of `page_size` results out of
/// `results`. With neither given, all results are kept; with only one given, or
/// with either zero, the request is refused. A page past the end is empty.
pub fn paginate_results<T: Clone>(results: &Vec<T>, page_index: Option<u32>, page_size: Option<u32>) -> (r: Result<
    Vec<T>,
    PageError,
>)
    ensures
        match (page_index, page_size) {
            (Some(i), Some(s)) => if i < 1 || s < 1 {
                r == Err::<Vec<T>, PageError>(PageError::NotPositive)
            } else {
                &&& r is Ok
                &&& r->Ok_0@.len() == page_len(results@.len() as int, i, s)
                &&& forall|k: int|
                    0 <= k < r->Ok_0@.len() ==> cloned(
                        results@[page_start(i, s) + k],
                        #[trigger] r->Ok_0@[k],
                    )
            },
            (None, None) => {
                &&& r is Ok
                &&& r->Ok_0@.len() == results@.len()
                &&& forall|k: int| 0 <= k < results@.len() ==> cloned(results@[k], #[trigger] r->Ok_0@[k])
            },
            _ => r == Err::<Vec<T>, PageError>(PageError::Incomplete),
        },
{
    let (start, end): (usize, usize) = match (page_index, page_size) {
        (Some(i), Some(s)) => {
            if i < 1 || s < 1 {
                return Err(PageError::NotPositive);
            }
            assert((i as u64 - 1) * (s as u64) + s as u64 <= 0xFFFF_FFFF * 0xFFFF_FFFFu64) by (nonlinear_arith)
                requires
                    1 <= i <= 0xFFFF_FFFFu64,
                    1 <= s <= 0xFFFF_FFFFu64,
            ;
            let start: u64 = (i as u64 - 1) * s as u64;
            let len = results.len();
            if start < len as u64 {
                let end: u64 = if start + s as u64 <= len as u64 { start + s as u64 } else { len as u64 };
                (start as usize, end as usize)
            } else {
                (0, 0)
            }
        },
        (None, None) => (0, results.len()),
        _ => {
            return Err(PageError::Incomplete);
        },
    };
    let ghost first: int = match (page_index, page_size) {
        (Some(i), Some(s)) => page_start(i, s),
        _ => 0,
    };
    let mut out: Vec<T> = Vec::new();
    let mut k: usize = start;
    while k < end
        invariant
            start <= k <= end <= results@.len(),
            start < end ==> first == start,
            out@.len() == k - start,
            forall|x: int| 0 <= x < out@.len() ==> cloned(results@[first + x], #[trigger] out@[x]),
        decreases end - k,
    {
        out.push(results[k].clone());
        k = k + 1;
    }
    Ok(out)
}

} // verus!

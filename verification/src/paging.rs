//! What the path-finding services share: fetching pools page by page, and the
//! envelope of an answer.

use vstd::prelude::*;

verus! {

/// The answer holds data.
pub const RC_SUCCESS: i32 = 0;

/// The pools could not be fetched.
pub const RC_POOL_FETCH_ERROR: i32 = 1;

/// No route was found.
pub const RC_ROUTE_ERROR: i32 = 2;

/// The answer could not be put together.
pub const RC_RESPONSE_BUILD_ERROR: i32 = 3;

/// The slippage is out of range.
pub const RC_INVALID_SLIPPAGE: i32 = 4;

/// The envelope of an answer.
#[derive(Clone, Debug, PartialEq)]
pub struct ApiResponse<T> {
    pub result_code: i32,
    pub result_message: String,
    pub result_data: Option<T>,
}

impl<T: View> ApiResponse<T> {
    /// The code, the message and the data of the answer.
    pub open spec fn answer(self) -> (i32, Seq<char>, Option<T::V>) {
        (
            self.result_code,
            self.result_message@,
            match self.result_data {
                Some(data) => Some(data@),
                None => None,
            },
        )
    }

    /// An answer with data.
    pub fn success(data: T) -> (r: Self)
        ensures
            r.answer() == (RC_SUCCESS, ""@, Some(data@)),
    {
        ApiResponse { result_code: RC_SUCCESS, result_message: "".to_owned(), result_data: Some(data) }
    }

    /// An answer with a reason why there is none.
    pub fn failure(code: i32, message: String) -> (r: Self)
        ensures
            r.answer() == (code, message@, None::<T::V>),
    {
        ApiResponse { result_code: code, result_message: message, result_data: None }
    }
}

/// The first item of every page: the multiples of the page size below `total`.
pub fn page_starts(total: u64, size: u64) -> (r: Vec<u64>)
    requires
        size > 0,
    ensures
        forall|i: int| 0 <= i < r@.len() ==> #[trigger] r@[i] == i * size,
        r@.len() * size >= total,
        r@.len() > 0 ==> r@.last() < total,
{
    let mut starts: Vec<u64> = Vec::new();
    if total == 0 {
        return starts;
    }
    let mut start: u64 = 0;
    assert(starts@.len() * size == 0) by (nonlinear_arith)
        requires
            starts@.len() == 0,
    ;
    loop
        invariant_except_break
            start < total,
            start == starts@.len() * size,
            forall|i: int| 0 <= i < starts@.len() ==> #[trigger] starts@[i] == i * size,
            starts@.len() > 0 ==> starts@.last() < total,
        invariant
            size > 0,
        ensures
            forall|i: int| 0 <= i < starts@.len() ==> #[trigger] starts@[i] == i * size,
            starts@.len() * size >= total,
            starts@.len() > 0 ==> starts@.last() < total,
        decreases total - start,
    {
        let ghost n = starts@.len();
        starts.push(start);
        assert((n + 1) * size == n * size + size) by (nonlinear_arith);
        if total - start <= size {
            break;
        }
        start = start + size;
    }
    starts
}

} // verus!

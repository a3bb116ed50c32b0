//! Pagination: translating a requested page and size into a limit and
//! offset, and the law that consecutive pages cover a listing exactly.

use vstd::prelude::*;

use crate::api::Pagination;
use crate::errors::ServiceError;
use crate::DEFAULT_PAGE_SIZE;

verus! {

/// Whether a requested pagination is acceptable: pages and sizes are
/// 1-based, and the resulting offset fits the machine.
pub open spec fn pagination_ok(p: Pagination) -> bool {
    p.page >= 1 && p.size >= 1 && (p.page - 1) * p.size <= u64::MAX
}

/// The limit and offset a request denotes, with the echoed pagination.
/// A missing pagination means the first page of the default size; `page` and
/// `size` below one, or an offset beyond the machine's range, are rejected
/// by the field name.
pub fn paginate(request: Option<Pagination>) -> (r: Result<(u64, u64, Pagination), ServiceError>)
    ensures
        request is None ==> r == Result::<(u64, u64, Pagination), ServiceError>::Ok(
            (DEFAULT_PAGE_SIZE, 0u64, Pagination { page: 1u64, size: DEFAULT_PAGE_SIZE }),
        ),
        request matches Some(p) ==> {
            &&& pagination_ok(p) ==> r == Result::<(u64, u64, Pagination), ServiceError>::Ok(
                (p.size, ((p.page - 1) * p.size) as u64, p),
            )
            &&& p.page < 1 ==> (r matches Err(e) && e matches ServiceError::InvalidArgument(f)
                && f@ == "pagination.page"@)
            &&& p.page >= 1 && p.size < 1 ==> (r matches Err(e) && e
                matches ServiceError::InvalidArgument(f) && f@ == "pagination.size"@)
            &&& p.page >= 1 && p.size >= 1 && (p.page - 1) * p.size > u64::MAX ==> (r matches Err(e)
                && e matches ServiceError::InvalidArgument(f) && f@ == "pagination"@)
        },
{
    match request {
        None => Ok((DEFAULT_PAGE_SIZE, 0, Pagination { page: 1, size: DEFAULT_PAGE_SIZE })),
        Some(p) => {
            if p.page < 1 {
                return Err(ServiceError::InvalidArgument("pagination.page".to_owned()));
            }
            if p.size < 1 {
                return Err(ServiceError::InvalidArgument("pagination.size".to_owned()));
            }
            proof {
                assert((p.page - 1) as u128 * p.size as u128 <= u128::MAX) by (nonlinear_arith)
                    requires
                        (p.page - 1) as u128 <= 0xffff_ffff_ffff_ffffu128,
                        p.size as u128 <= 0xffff_ffff_ffff_ffffu128,
                ;
            }
            let off: u128 = (p.page - 1) as u128 * p.size as u128;
            if off > u64::MAX as u128 {
                return Err(ServiceError::InvalidArgument("pagination".to_owned()));
            }
            Ok((p.size, off as u64, p))
        },
    }
}

/// One page of a listing: the elements from `offset` on, at most `limit` of
/// them.
pub open spec fn page_of<A>(s: Seq<A>, offset: int, limit: int) -> Seq<A> {
    let lo = if offset > s.len() {
        s.len() as int
    } else {
        offset
    };
    let hi = if offset + limit > s.len() {
        s.len() as int
    } else {
        offset + limit
    };
    s.subrange(lo, hi)
}

/// Pages 1 through `n` of size `size`, concatenated in order.
pub open spec fn pages_concat<A>(s: Seq<A>, size: int, n: int) -> Seq<A>
    decreases n,
{
    if n <= 0 {
        Seq::empty()
    } else {
        pages_concat(s, size, n - 1) + page_of(s, (n - 1) * size, size)
    }
}

/// The first `n` pages hold exactly the first `n * size` elements.
proof fn lemma_pages_concat_take<A>(s: Seq<A>, size: int, n: int)
    requires
        size >= 1,
        n >= 0,
    ensures
        pages_concat(s, size, n) == s.take(if n * size > s.len() {
            s.len() as int
        } else {
            n * size
        }),
    decreases n,
{
    if n == 0 {
        assert(pages_concat(s, size, 0) =~= s.take(0));
    } else {
        lemma_pages_concat_take(s, size, n - 1);
        assert((n - 1) * size == n * size - size) by (nonlinear_arith);
        assert(n * size >= size && (n - 1) * size >= 0) by (nonlinear_arith)
            requires
                n >= 1 && size >= 1,
        ;
        let len = s.len() as int;
        let a = if (n - 1) * size > len {
            len
        } else {
            (n - 1) * size
        };
        let b = if n * size > len {
            len
        } else {
            n * size
        };
        assert(page_of(s, (n - 1) * size, size) == s.subrange(a, b));
        assert(pages_concat(s, size, n - 1) == s.take(a));
        assert(s.take(a) + s.subrange(a, b) =~= s.take(b));
        assert(pages_concat(s, size, n) == s.take(b));
    }
}

/// Pagination round trip: for any listing and any page size, concatenating
/// pages 1 through the last (the ceiling of length over size) yields exactly
/// the whole listing, with nothing repeated and nothing left out.
pub proof fn lemma_pages_cover<A>(s: Seq<A>, size: int)
    requires
        size >= 1,
    ensures
        pages_concat(s, size, (s.len() + size - 1) / size) == s,
{
    let len = s.len() as int;
    let n = (len + size - 1) / size;
    vstd::arithmetic::div_mod::lemma_fundamental_div_mod(len + size - 1, size);
    vstd::arithmetic::div_mod::lemma_mod_division_less_than_divisor(len + size - 1, size);
    vstd::arithmetic::div_mod::lemma_div_pos_is_pos(len + size - 1, size);
    assert(size * n == len + size - 1 - ((len + size - 1) % size));
    assert(size * n >= len);
    assert(n * size == size * n) by (nonlinear_arith);
    lemma_pages_concat_take(s, size, n);
    assert(s.take(len) =~= s);
}

} // verus!

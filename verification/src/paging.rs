//! How list positions fall into pages, and the saturating arithmetic of
//! page bounds.
use vstd::prelude::*;

verus! {

/// The number of positions the list shows for `total_count` records.
pub open spec fn visible_for(total_count: u64) -> u32 {
    if total_count > u32::MAX as u64 {
        u32::MAX
    } else {
        total_count as u32
    }
}

/// The first position of the page that holds `position`.
pub open spec fn page_start_of(position: u32, page_size: u32) -> u64 {
    ((position / page_size) * page_size) as u64
}

/// The number of positions of the page that starts at `page_start` which
/// the list shows.
pub open spec fn shown_rows(page_size: u32, visible_count: u32, page_start: u64) -> nat {
    if page_start < visible_count as u64 {
        if (page_size as int) < visible_count - page_start {
            page_size as nat
        } else {
            (visible_count - page_start) as nat
        }
    } else {
        0
    }
}

/// `a + b`, or `u64::MAX` when the sum does not fit.
pub open spec fn saturating_sum(a: u64, b: nat) -> u64 {
    if a + b > u64::MAX {
        u64::MAX
    } else {
        (a + b) as u64
    }
}

/// The smaller of `a` and `b`.
pub open spec fn min_u64(a: u64, b: u64) -> u64 {
    if a < b {
        a
    } else {
        b
    }
}

/// A page start lies at or before its position, and the position's offset
/// in the page is less than the page size.
pub proof fn lemma_page_start_bounds(position: u32, page_size: u32)
    requires
        page_size >= 1,
    ensures
        (position / page_size) * page_size <= position,
        position - (position / page_size) * page_size < page_size,
        position % page_size == position - (position / page_size) * page_size,
{
    let p = position as int;
    let d = page_size as int;
    vstd::arithmetic::div_mod::lemma_fundamental_div_mod(p, d);
    vstd::arithmetic::div_mod::lemma_mod_bound(p, d);
    vstd::arithmetic::mul::lemma_mul_is_commutative(d, p / d);
    assert((position / page_size) as int == p / d);
    assert(((position / page_size) * page_size) as int == (p / d) * d);
}

} // verus!

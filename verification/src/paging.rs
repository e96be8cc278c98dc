//! Arithmetic of addresses and pages.
//!
//! Facts about division by a page length that every proof about flash leans
//! on.

use vstd::arithmetic::div_mod::{
    lemma_div_is_ordered, lemma_div_plus_one, lemma_fundamental_div_mod,
    lemma_fundamental_div_mod_converse, lemma_mod_bound,
};
use vstd::arithmetic::mul::{
    lemma_mul_inequality, lemma_mul_is_commutative, lemma_mul_is_distributive_add,
};
use vstd::prelude::*;

verus! {

/// An address is so many pages and the rest.
pub proof fn lemma_split(address: int, page_len: int)
    requires
        0 <= address,
        0 < page_len,
    ensures
        address == address / page_len * page_len + address % page_len,
        0 <= address % page_len < page_len,
        0 <= address / page_len <= address,
{
    let page = address / page_len;
    lemma_fundamental_div_mod(address, page_len);
    lemma_mul_is_commutative(page_len, page);
    lemma_mod_bound(address, page_len);
    lemma_div_is_ordered(0, address, page_len);
    assert(0int / page_len == 0) by {
        lemma_fundamental_div_mod_converse(0, page_len, 0, 0);
    }
    lemma_mul_inequality(1, page_len, page);
    lemma_mul_is_commutative(page_len, page);
}

/// So many pages and a rest less than a page are nothing but that.
pub proof fn lemma_join(address: int, page: int, rest: int, page_len: int)
    requires
        address == page * page_len + rest,
        0 <= rest < page_len,
    ensures
        address / page_len == page,
        address % page_len == rest,
{
    lemma_mul_is_commutative(page, page_len);
    lemma_fundamental_div_mod_converse(address, page_len, page, rest);
}

/// Pages are in the order of their addresses.
pub proof fn lemma_page_order(a: int, b: int, page_len: int)
    requires
        a <= b,
        0 < page_len,
    ensures
        a / page_len <= b / page_len,
{
    lemma_div_is_ordered(a, b, page_len);
}

/// Page starts are in the order of the pages.
pub proof fn lemma_start_order(p: int, q: int, page_len: int)
    requires
        p <= q,
        0 < page_len,
    ensures
        p * page_len <= q * page_len,
        p < q ==> p * page_len + page_len <= q * page_len,
        (p + 1) * page_len == p * page_len + page_len,
{
    lemma_mul_inequality(p, q, page_len);
    lemma_mul_is_commutative(p + 1, page_len);
    lemma_mul_is_commutative(p, page_len);
    lemma_mul_is_distributive_add(page_len, p, 1);
    if p < q {
        lemma_mul_inequality(p + 1, q, page_len);
    }
}

/// Rounding up to whole pages is one more than the page of the last byte.
pub proof fn lemma_round_up(end: int, page_len: int)
    requires
        0 < page_len,
    ensures
        (end + page_len - 1) / page_len == (end - 1) / page_len + 1,
{
    lemma_div_plus_one(end - 1, page_len);
}

/// A page whose first byte lies in a whole number of pages lies in them.
pub proof fn lemma_page_inside(address: int, total: int, page_len: int)
    requires
        0 <= address < total,
        0 < page_len,
        total % page_len == 0,
    ensures
        address / page_len * page_len + page_len <= total,
{
    lemma_split(address, page_len);
    lemma_split(total, page_len);
    let page = address / page_len;
    let pages = total / page_len;
    if pages <= page {
        lemma_start_order(pages, page, page_len);
    }
    lemma_start_order(page, pages, page_len);
}

} // verus!

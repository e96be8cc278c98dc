//! How the flash behaves.
//!
//! The driver writes whole pages and erases whole blocks of them: before it
//! writes a page that is not blank, it erases the block the page is in. The
//! laws that say what ends up in flash say it of a flash that does this.

use vstd::prelude::*;

use crate::bytes::write_at;
use crate::paging::{lemma_join, lemma_page_inside, lemma_split, lemma_start_order};
use crate::uds::codes::BLOCK_PAGES;

verus! {

/// Page `page_number` of a flash with pages of `page_len` bytes.
pub open spec fn page_at(flash: Seq<u8>, page_number: int, page_len: int) -> Seq<u8> {
    flash.subrange(page_number * page_len, page_number * page_len + page_len)
}

/// A page with nothing in it.
pub open spec fn blank(page_len: int) -> Seq<u8> {
    Seq::new(page_len as nat, |i: int| 0xFFu8)
}

/// The flash with the erase block that holds `page_number` erased.
pub open spec fn erased(flash: Seq<u8>, page_number: int, page_len: int) -> Seq<u8> {
    Seq::new(
        flash.len(),
        |i: int|
            if i / page_len / (BLOCK_PAGES as int) == page_number / (BLOCK_PAGES as int) {
                0xFFu8
            } else {
                flash[i]
            },
    )
}

/// The flash with a page written. The driver erases a whole block before it
/// writes a page that is not already blank.
pub open spec fn written(flash: Seq<u8>, page_number: int, page: Seq<u8>) -> Seq<u8> {
    let page_len = page.len() as int;
    let ready = if page_at(flash, page_number, page_len) == blank(page_len) {
        flash
    } else {
        erased(flash, page_number, page_len)
    };
    write_at(ready, page_number * page_len, page)
}

/// What part of a page a range takes, seen from the flash.
pub proof fn lemma_page_part(flash: Seq<u8>, address: int, take: int, page_len: int)
    requires
        0 < page_len,
        0 <= address,
        0 <= take <= page_len - address % page_len,
        address + take <= flash.len(),
        flash.len() as int % page_len == 0,
        address < flash.len(),
    ensures
        0 <= address % page_len < page_len,
        0 <= address / page_len <= address,
        address / page_len * page_len + address % page_len == address,
        address / page_len * page_len + page_len <= flash.len(),
        page_at(flash, address / page_len, page_len).len() == page_len,
        page_at(flash, address / page_len, page_len).subrange(
            address % page_len,
            address % page_len + take,
        ) == flash.subrange(address, address + take),
{
    let page_number = address / page_len;
    let offset = address % page_len;
    lemma_split(address, page_len);
    lemma_page_inside(address, flash.len() as int, page_len);
    assert(page_at(flash, page_number, page_len).subrange(offset, offset + take)
        =~= flash.subrange(address, address + take));
}

/// The bytes of page `q` are those whose index divides to it.
pub proof fn lemma_index_in_page(q: int, j: int, page_len: int)
    requires
        0 <= q,
        0 <= j < page_len,
    ensures
        (q * page_len + j) / page_len == q,
        0 <= q * page_len,
{
    lemma_join(q * page_len + j, q, j, page_len);
    lemma_start_order(0, q, page_len);
}

/// Pages do not overlap.
pub proof fn lemma_pages_apart(p: int, q: int, page_len: int)
    requires
        p < q,
        0 < page_len,
    ensures
        p * page_len + page_len <= q * page_len,
{
    lemma_start_order(p, q, page_len);
}

/// What writing page `p` leaves in page `q`.
pub proof fn lemma_written_page(flash: Seq<u8>, p: int, page: Seq<u8>, q: int)
    requires
        0 < page.len(),
        0 <= p && p * page.len() + page.len() <= flash.len(),
        0 <= q && q * page.len() + page.len() <= flash.len(),
    ensures
        written(flash, p, page).len() == flash.len(),
        page_at(written(flash, p, page), q, page.len() as int) == if q == p {
            page
        } else if page_at(flash, p, page.len() as int) != blank(page.len() as int) && q / 16 == p
            / 16 {
            blank(page.len() as int)
        } else {
            page_at(flash, q, page.len() as int)
        },
{
    let page_len = page.len() as int;
    let after = written(flash, p, page);
    lemma_index_in_page(p, 0, page_len);
    lemma_index_in_page(q, 0, page_len);
    if p < q {
        lemma_pages_apart(p, q, page_len);
    } else if q < p {
        lemma_pages_apart(q, p, page_len);
    }
    let expected = if q == p {
        page
    } else if page_at(flash, p, page_len) != blank(page_len) && q / 16 == p / 16 {
        blank(page_len)
    } else {
        page_at(flash, q, page_len)
    };
    assert forall|j: int| 0 <= j < page_len implies page_at(after, q, page_len)[j]
        == expected[j] by {
        lemma_index_in_page(q, j, page_len);
    }
    assert(page_at(after, q, page_len) =~= expected);
}

} // verus!

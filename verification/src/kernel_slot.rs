//! Copy the kernel between the active slot and its cold backup.
//!
//! The kernel is linked to run at the active slot's address, so an image in
//! the backup region is never executed where it lies, only copied down over
//! the active slot when the active one is unusable.
//!
//! A copy goes page by page in ascending order. The destination's integrity
//! descriptor lies above the image, so it is written after the image it
//! vouches for. Whoever starts a copy is expected to have invalidated the
//! descriptor first: then losing power in between leaves the destination
//! without a valid descriptor rather than with a stale one.
//!
//! The flash erases whole blocks, so what a copy can be relied on to leave
//! behind depends on what the destination held: see [`copyable`].

use vstd::prelude::*;

use crate::actions::held;
use crate::bytes::{copy_into, write_at};
use crate::error::ErrorCode;
use crate::flash::{blank, lemma_written_page, page_at, written};
use crate::uds::codes::BLOCK_PAGES;

verus! {

/// Bytes copied per step. Matches the flash page so one read maps to one
/// write with no buffering in between.
pub const PAGE: usize = 512;

/// What a copy asks for.
pub enum Step<B> {
    /// Have the flash write `page` to page `page_number`.
    Write { page_number: usize, page: B },
    /// The copy is over.
    Done(Result<(), ErrorCode>),
}

impl View for Step<Vec<u8>> {
    type V = Step<Seq<u8>>;

    open spec fn view(&self) -> Step<Seq<u8>> {
        match *self {
            Step::Write { page_number, page } => Step::Write { page_number, page: page@ },
            Step::Done(result) => Step::Done(result),
        }
    }
}

/// A copy in progress.
#[derive(Copy, Clone)]
pub struct Copying {
    pub src: u32,
    pub dst: u32,
    /// How many pages there are in all, and the one that is next.
    pub pages: usize,
    pub next: usize,
}

/// Copies whole pages between two flash regions.
///
/// Holds its own page buffer, which comes back after each write. The driver
/// completes a write before the call that starts it returns, so by then the
/// page is here again; if it is not, the copy stops rather than silently
/// writing the wrong page.
pub struct SlotCopier {
    page: Option<Vec<u8>>,
    copying: Copying,
}

/// The state of a copier.
#[verifier::ext_equal]
pub struct CopierModel {
    pub page: Option<Seq<u8>>,
    pub copying: Copying,
}

/// How many pages `len` bytes take.
pub open spec fn pages_of(len: int) -> int {
    (len + PAGE - 1) / (PAGE as int)
}

impl CopierModel {
    /// What holds between any two events.
    pub open spec fn wf(self) -> bool {
        &&& self.copying.next <= self.copying.pages
        &&& self.copying.dst + self.copying.pages * PAGE <= u32::MAX
        &&& self.copying.src + self.copying.pages * PAGE <= u32::MAX
    }

    /// Go on with the page that is next, or finish.
    pub open spec fn advance(self, flash: Seq<u8>) -> (CopierModel, Step<Seq<u8>>) {
        let from = self.copying.src + self.copying.next * PAGE;
        if self.copying.next >= self.copying.pages {
            (self, Step::Done(Ok(())))
        } else {
            match self.page {
                None => (self, Step::Done(Err(ErrorCode::NOMEM))),
                Some(page) => if page.len() < PAGE {
                    (self, Step::Done(Err(ErrorCode::SIZE)))
                } else {
                    (
                        CopierModel {
                            page: None,
                            copying: Copying {
                                next: (self.copying.next + 1) as usize,
                                ..self.copying
                            },
                        },
                        Step::Write {
                            page_number: ((self.copying.dst + self.copying.next * PAGE)
                                / PAGE as int) as usize,
                            page: write_at(page, 0, flash.subrange(from, from + PAGE)),
                        },
                    )
                },
            }
        }
    }

    /// Does a copy of `len` bytes get as far as its first page?
    pub open spec fn starts(self, src: u32, dst: u32, len: usize) -> bool {
        &&& src as int % (PAGE as int) == 0 && dst as int % (PAGE as int) == 0
        &&& len > 0
        &&& self.page is Some && self.page->0.len() >= PAGE
    }

    /// Start a copy of `len` bytes. One that is over before its first page
    /// leaves no trace.
    pub open spec fn copy(self, src: u32, dst: u32, len: usize, flash: Seq<u8>) -> (
        CopierModel,
        Step<Seq<u8>>,
    ) {
        if src as int % (PAGE as int) != 0 || dst as int % (PAGE as int) != 0 {
            (self, Step::Done(Err(ErrorCode::INVAL)))
        } else if len == 0 {
            (self, Step::Done(Ok(())))
        } else if self.page is None {
            (self, Step::Done(Err(ErrorCode::NOMEM)))
        } else if self.page->0.len() < PAGE {
            (self, Step::Done(Err(ErrorCode::SIZE)))
        } else {
            CopierModel {
                copying: Copying { src, dst, pages: pages_of(len as int) as usize, next: 0 },
                ..self
            }.advance(flash)
        }
    }

    /// The call that started a write returned.
    pub open spec fn write_started(self, flash: Seq<u8>) -> (CopierModel, Step<Seq<u8>>) {
        match self.page {
            None => (self, Step::Done(Err(ErrorCode::FAIL))),
            Some(_) => self.advance(flash),
        }
    }
}

impl View for SlotCopier {
    type V = CopierModel;

    closed spec fn view(&self) -> CopierModel {
        CopierModel { page: held(self.page), copying: self.copying }
    }
}

impl SlotCopier {
    pub fn new(page: Vec<u8>) -> (copier: SlotCopier)
        ensures
            copier@ == (CopierModel {
                page: Some(page@),
                copying: Copying { src: 0, dst: 0, pages: 0, next: 0 },
            }),
            copier@.wf(),
    {
        SlotCopier {
            page: Some(page),
            copying: Copying { src: 0, dst: 0, pages: 0, next: 0 },
        }
    }

    /// Go on with the page that is next, or finish.
    fn advance(&mut self, flash: &[u8]) -> (step: Step<Vec<u8>>)
        requires
            old(self)@.wf(),
            old(self)@.copying.src + old(self)@.copying.pages * PAGE <= flash@.len(),
        ensures
            (final(self)@, step@) == old(self)@.advance(flash@),
            final(self)@.wf(),
    {
        let i: usize = self.copying.next;
        if i >= self.copying.pages {
            return Step::Done(Ok(()));
        }
        match self.page.take() {
            None => Step::Done(Err(ErrorCode::NOMEM)),
            Some(page) => {
                if page.len() < PAGE {
                    self.page = Some(page);
                    return Step::Done(Err(ErrorCode::SIZE));
                }
                let from: usize = self.copying.src as usize + i * PAGE;
                let to: usize = self.copying.dst as usize + i * PAGE;
                let mut page = page;
                copy_into(&mut page, 0, vstd::slice::slice_subrange(flash, from, from + PAGE));
                self.copying.next = i + 1;
                Step::Write { page_number: to / PAGE, page }
            },
        }
    }

    /// Copy `len` bytes from `src` to `dst`, both page-aligned addresses.
    /// `flash` is the flash as it appears from address zero on.
    pub fn copy(&mut self, src: u32, dst: u32, len: usize, flash: &[u8]) -> (step: Step<Vec<u8>>)
        requires
            old(self)@.wf(),
            old(self)@.starts(src, dst, len) ==> {
                &&& src + pages_of(len as int) * PAGE <= flash@.len() <= u32::MAX
                &&& dst + pages_of(len as int) * PAGE <= u32::MAX
            },
        ensures
            (final(self)@, step@) == old(self)@.copy(src, dst, len, flash@),
            final(self)@.wf(),
    {
        if src % PAGE as u32 != 0 || dst % PAGE as u32 != 0 {
            return Step::Done(Err(ErrorCode::INVAL));
        }
        if len == 0 {
            return Step::Done(Ok(()));
        }
        match &self.page {
            None => {
                return Step::Done(Err(ErrorCode::NOMEM));
            },
            Some(page) => {
                if page.len() < PAGE {
                    return Step::Done(Err(ErrorCode::SIZE));
                }
            },
        }
        let pages: usize = if len % PAGE == 0 {
            len / PAGE
        } else {
            len / PAGE + 1
        };
        self.copying = Copying { src, dst, pages, next: 0 };
        self.advance(flash)
    }

    /// The call that started a write returned: go on.
    pub fn write_started(&mut self, flash: &[u8]) -> (step: Step<Vec<u8>>)
        requires
            old(self)@.wf(),
            old(self)@.copying.src + old(self)@.copying.pages * PAGE <= flash@.len(),
        ensures
            (final(self)@, step@) == old(self)@.write_started(flash@),
            final(self)@.wf(),
    {
        if self.page.is_none() {
            return Step::Done(Err(ErrorCode::FAIL));
        }
        self.advance(flash)
    }

    /// The call that would have started a write gave the page back: the copy
    /// is over.
    pub fn write_refused(&mut self, error: ErrorCode, page: Vec<u8>) -> (step: Step<Vec<u8>>)
        requires
            old(self)@.wf(),
        ensures
            step@ == Step::<Seq<u8>>::Done(Err(error)),
            final(self)@ == (CopierModel { page: Some(page@), ..old(self)@ }),
            final(self)@.wf(),
    {
        self.page = Some(page);
        Step::Done(Err(error))
    }

    /// The flash is done with the page.
    pub fn write_complete(&mut self, page: Vec<u8>)
        requires
            old(self)@.wf(),
        ensures
            final(self)@ == (CopierModel { page: Some(page@), ..old(self)@ }),
            final(self)@.wf(),
    {
        self.page = Some(page);
    }

    /// The flash is done with the page.
    pub fn read_complete(&mut self, page: Vec<u8>)
        requires
            old(self)@.wf(),
        ensures
            final(self)@ == (CopierModel { page: Some(page@), ..old(self)@ }),
            final(self)@.wf(),
    {
        self.page = Some(page);
    }
}

/// A copier and the flash, after every write asked for so far has been done,
/// up to `writes` more of them.
pub open spec fn copied(
    model: CopierModel,
    step: Step<Seq<u8>>,
    flash: Seq<u8>,
    writes: nat,
) -> (CopierModel, Step<Seq<u8>>, Seq<u8>)
    decreases writes,
{
    match step {
        Step::Write { page_number, page } => if writes == 0 {
            (model, step, flash)
        } else {
            let after = written(flash, page_number as int, page);
            let back = CopierModel { page: Some(page), ..model };
            let (next, then) = back.write_started(after);
            copied(next, then, after, (writes - 1) as nat)
        },
        Step::Done(_) => (model, step, flash),
    }
}

/// The flash with `pages` pages from `src` on at `dst`, and nothing else
/// changed.
pub open spec fn mirrored(flash: Seq<u8>, src: int, dst: int, pages: int) -> Seq<u8> {
    write_at(flash, dst, flash.subrange(src, src + pages * PAGE))
}

/// Does page `page_number` hold anything?
pub open spec fn in_use(flash: Seq<u8>, page_number: int) -> bool {
    page_at(flash, page_number, PAGE as int) != blank(PAGE as int)
}

/// Are two pages erased together?
pub open spec fn same_block(p: int, q: int) -> bool {
    p / (BLOCK_PAGES as int) == q / (BLOCK_PAGES as int)
}

/// Do `pages` pages from page `first` on come to hold what they hold in
/// `wanted`, and all others what they held, when they are written in ascending
/// order? Writing a page `p` that is in use erases its block, so no page `q`
/// of that block may then have anything to lose: none outside the range, and
/// none below `p` unless an earlier write, at or below `q`, has erased the
/// block already.
pub open spec fn pages_rewritable(
    flash: Seq<u8>,
    wanted: Seq<u8>,
    first: int,
    pages: int,
) -> bool {
    forall|p: int, q: int|
        #![trigger in_use(flash, p), in_use(wanted, q)]
        first <= p < first + pages && in_use(flash, p) && 0 <= q && q * PAGE + PAGE
            <= flash.len() && same_block(p, q) && in_use(wanted, q) && !(p <= q < first + pages)
            ==> q < p && erased_by(flash, first, q + 1, q)
}

/// Have the writes of the pages from `first` up to `end` erased the block that
/// `q` is in?
pub open spec fn erased_by(flash: Seq<u8>, first: int, end: int, q: int) -> bool {
    exists|i: int| first <= i < end && same_block(i, q) && #[trigger] in_use(flash, i)
}

/// A copy of which `done` pages are done: those hold what they should, the
/// rest of their blocks is erased where it had to be, and everything else is
/// as it was.
spec fn partly_copied(
    flash: Seq<u8>,
    before: Seq<u8>,
    wanted: Seq<u8>,
    first: int,
    pages: int,
    done: int,
) -> bool {
    &&& flash.len() == before.len()
    &&& forall|q: int|
        0 <= q && q * PAGE + PAGE <= flash.len() ==> #[trigger] page_at(flash, q, PAGE as int)
            == if first <= q < first + done {
            page_at(wanted, q, PAGE as int)
        } else if q < first + pages && first + done <= q && erased_by(
            before,
            first,
            first + done,
            q,
        ) {
            blank(PAGE as int)
        } else {
            page_at(before, q, PAGE as int)
        }
}

/// Copying one page more.
proof fn lemma_page_copied(
    flash: Seq<u8>,
    before: Seq<u8>,
    wanted: Seq<u8>,
    first: int,
    pages: int,
    done: int,
)
    requires
        partly_copied(flash, before, wanted, first, pages, done),
        pages_rewritable(before, wanted, first, pages),
        0 <= first && 0 <= done < pages,
        (first + pages) * PAGE <= flash.len(),
        wanted.len() == before.len(),
        forall|q: int|
            0 <= q && q * PAGE + PAGE <= flash.len() && !(first <= q < first + pages)
                ==> #[trigger] page_at(wanted, q, PAGE as int) == page_at(before, q, PAGE as int),
    ensures
        partly_copied(
            written(flash, first + done, page_at(wanted, first + done, PAGE as int)),
            before,
            wanted,
            first,
            pages,
            done + 1,
        ),
{
    let size = PAGE as int;
    let p = first + done;
    let page = page_at(wanted, p, size);
    let after = written(flash, p, page);
    lemma_written_page(flash, p, page, p);
    assert(page_at(flash, p, size) == if erased_by(before, first, p, p) {
        blank(size)
    } else {
        page_at(before, p, size)
    });
    assert forall|q: int| 0 <= q && q * PAGE + PAGE <= after.len() implies #[trigger] page_at(
        after,
        q,
        size,
    ) == if first <= q < p + 1 {
        page_at(wanted, q, size)
    } else if q < first + pages && p + 1 <= q && erased_by(before, first, p + 1, q) {
        blank(size)
    } else {
        page_at(before, q, size)
    } by {
        lemma_written_page(flash, p, page, q);
        assert(page_at(flash, q, size).len() == size);
        if q != p {
            if in_use(flash, p) {
                // Nothing in this block has been erased before.
                assert(!erased_by(before, first, p, p));
                assert(in_use(before, p));
                if same_block(q, p) {
                    if p < q < first + pages {
                        assert(in_use(before, p) && same_block(p, q));
                        assert(erased_by(before, first, p + 1, q));
                    } else if in_use(wanted, q) {
                        assert(same_block(p, q));
                        assert(erased_by(before, first, q + 1, q));
                        let i = choose|i: int|
                            first <= i < q + 1 && same_block(i, q) && #[trigger] in_use(before, i);
                        assert(same_block(i, p));
                        assert(erased_by(before, first, p, p));
                    }
                }
            }
            if p < q && erased_by(before, first, p + 1, q) && !erased_by(before, first, p, q) {
                let i = choose|i: int|
                    first <= i < p + 1 && same_block(i, q) && #[trigger] in_use(before, i);
                assert(i == p);
                if erased_by(before, first, p, p) {
                    let j = choose|j: int|
                        first <= j < p && same_block(j, p) && #[trigger] in_use(before, j);
                    assert(same_block(j, q));
                }
                assert(in_use(flash, p));
            }
        }
    }
}

/// A copy that goes on for `writes` more writes.
proof fn lemma_copy_goes_on(
    model: CopierModel,
    flash: Seq<u8>,
    before: Seq<u8>,
    writes: nat,
)
    requires
        model.wf(),
        model.page is Some && model.page->0.len() == PAGE,
        model.copying.src as int % (PAGE as int) == 0,
        model.copying.dst as int % (PAGE as int) == 0,
        model.copying.src + model.copying.pages * PAGE <= flash.len(),
        model.copying.dst + model.copying.pages * PAGE <= flash.len(),
        model.copying.src + model.copying.pages * PAGE <= model.copying.dst || model.copying.dst
            + model.copying.pages * PAGE <= model.copying.src,
        ({
            let first = model.copying.dst as int / (PAGE as int);
            let pages = model.copying.pages as int;
            let wanted = mirrored(
                before,
                model.copying.src as int,
                model.copying.dst as int,
                pages,
            );
            &&& pages_rewritable(before, wanted, first, pages)
            &&& partly_copied(flash, before, wanted, first, pages, model.copying.next as int)
        }),
    ensures
        ({
            let first = model.copying.dst as int / (PAGE as int);
            let pages = model.copying.pages as int;
            let wanted = mirrored(
                before,
                model.copying.src as int,
                model.copying.dst as int,
                pages,
            );
            let (next, step) = model.advance(flash);
            let end = copied(next, step, flash, writes);
            let done = if model.copying.next + writes <= pages {
                model.copying.next + writes
            } else {
                pages
            };
            &&& partly_copied(end.2, before, wanted, first, pages, done)
            &&& model.copying.next + writes >= pages ==> {
                &&& end.0.page is Some && end.0.page->0.len() == PAGE
                &&& end.1 == Step::<Seq<u8>>::Done(Ok(()))
            }
        }),
    decreases writes,
{
    let src = model.copying.src as int;
    let dst = model.copying.dst as int;
    let done = model.copying.next as int;
    let pages = model.copying.pages as int;
    let size = PAGE as int;
    let first = dst / size;
    let wanted = mirrored(before, src, dst, pages);
    if done < pages && writes > 0 {
        let (moved, step) = model.advance(flash);
        let from = src / size + done;
        let page = page_at(flash, from, size);
        assert(page =~= flash.subrange(src + done * PAGE, src + done * PAGE + PAGE));
        assert(write_at(model.page->0, 0, page) =~= page);
        assert(page == page_at(before, from, size));
        assert(page_at(wanted, first + done, size) =~= page) by {
            assert forall|j: int| 0 <= j < size implies page_at(wanted, first + done, size)[j]
                == page[j] by {
                assert(wanted[dst + (done * PAGE + j)] == before[src + (done * PAGE + j)]);
            }
        }
        assert forall|q: int|
            0 <= q && q * PAGE + PAGE <= flash.len() && !(first <= q < first + pages) implies
            #[trigger] page_at(wanted, q, size) == page_at(before, q, size) by {
            assert(page_at(wanted, q, size) =~= page_at(before, q, size));
        }
        lemma_page_copied(flash, before, wanted, first, pages, done);
        let after = written(flash, first + done, page);
        let back = CopierModel { page: Some(page), ..moved };
        assert(step == Step::Write { page_number: (first + done) as usize, page });
        lemma_copy_goes_on(back, after, before, (writes - 1) as nat);
    }
}

/// A copy from its start.
proof fn lemma_copy_starts(
    model: CopierModel,
    src: u32,
    dst: u32,
    len: usize,
    flash: Seq<u8>,
    writes: nat,
)
    requires
        model.page is Some && model.page->0.len() == PAGE,
        copyable(src, dst, len, flash),
    ensures
        ({
            let pages = pages_of(len as int);
            let first = dst as int / (PAGE as int);
            let wanted = mirrored(flash, src as int, dst as int, pages);
            let (next, step) = model.copy(src, dst, len, flash);
            let end = copied(next, step, flash, writes);
            let done = if writes <= pages {
                writes as int
            } else {
                pages
            };
            &&& partly_copied(end.2, flash, wanted, first, pages, done)
            &&& writes >= pages ==> {
                &&& end.0.page is Some && end.0.page->0.len() == PAGE
                &&& end.1 == Step::<Seq<u8>>::Done(Ok(()))
            }
        }),
{
    let pages = pages_of(len as int);
    let first = dst as int / (PAGE as int);
    let wanted = mirrored(flash, src as int, dst as int, pages);
    let started = CopierModel {
        copying: Copying { src, dst, pages: pages as usize, next: 0 },
        ..model
    };
    assert(partly_copied(flash, flash, wanted, first, pages, 0));
    lemma_copy_goes_on(started, flash, flash, writes);
}

/// Are `len` bytes, in whole pages, from `src` on and from `dst` on two regions
/// of the flash that are page-aligned and do not overlap?
pub open spec fn apart(src: u32, dst: u32, len: usize, flash: Seq<u8>) -> bool {
    let pages = pages_of(len as int);
    &&& src as int % (PAGE as int) == 0 && dst as int % (PAGE as int) == 0
    &&& flash.len() as int % (PAGE as int) == 0 && flash.len() <= u32::MAX
    &&& src + pages * PAGE <= flash.len() && dst + pages * PAGE <= flash.len()
    &&& src + pages * PAGE <= dst || dst + pages * PAGE <= src
}

/// Can `len` bytes be copied, in whole pages, from `src` to `dst`? The regions
/// must be [`apart`], and the destination [`pages_rewritable`].
pub open spec fn copyable(src: u32, dst: u32, len: usize, flash: Seq<u8>) -> bool {
    let pages = pages_of(len as int);
    &&& apart(src, dst, len, flash)
    &&& pages_rewritable(
        flash,
        mirrored(flash, src as int, dst as int, pages),
        dst as int / (PAGE as int),
        pages,
    )
}

/// Whole blocks can be rewritten, whatever is to be put there, if the first
/// page of a block is in use wherever any of its pages is. Blank blocks are
/// the simplest of these.
pub proof fn law_blocks_filled_from_their_start_are_rewritable(
    flash: Seq<u8>,
    wanted: Seq<u8>,
    first: int,
    pages: int,
)
    requires
        first % (BLOCK_PAGES as int) == 0 && pages % (BLOCK_PAGES as int) == 0,
        forall|p: int|
            first <= p < first + pages && #[trigger] in_use(flash, p) ==> in_use(
                flash,
                p / (BLOCK_PAGES as int) * BLOCK_PAGES,
            ),
    ensures
        pages_rewritable(flash, wanted, first, pages),
{
    assert forall|p: int, q: int|
        #![trigger in_use(flash, p), in_use(wanted, q)]
        first <= p < first + pages && in_use(flash, p) && 0 <= q && q * PAGE + PAGE <= flash.len()
            && same_block(p, q) && in_use(wanted, q) && !(p <= q < first + pages) implies q < p
        && erased_by(flash, first, q + 1, q) by {
        assert(first == 16 * (first / 16));
        assert(pages == 16 * (pages / 16));
        let i = p / (BLOCK_PAGES as int) * BLOCK_PAGES;
        assert(in_use(flash, i) && same_block(i, q));
    }
}

/// A copy puts the source, in whole pages, at the destination, changes nothing
/// else, reports success, and has its page again.
///
/// [`law_copy_loses_what_cannot_be_rewritten`] says what becomes of a copy to
/// a destination that is not [`pages_rewritable`].
pub proof fn law_copy_is_exact(
    model: CopierModel,
    src: u32,
    dst: u32,
    len: usize,
    flash: Seq<u8>,
)
    requires
        model.page is Some && model.page->0.len() == PAGE,
        copyable(src, dst, len, flash),
    ensures
        ({
            let pages = pages_of(len as int);
            let (next, step) = model.copy(src, dst, len, flash);
            let end = copied(next, step, flash, pages as nat);
            &&& end.0.page is Some && end.0.page->0.len() == PAGE
            &&& end.1 == Step::<Seq<u8>>::Done(Ok(()))
            &&& end.2 == mirrored(flash, src as int, dst as int, pages)
        }),
{
    let pages = pages_of(len as int);
    let size = PAGE as int;
    let first = dst as int / size;
    let wanted = mirrored(flash, src as int, dst as int, pages);
    lemma_copy_starts(model, src, dst, len, flash, pages as nat);
    let (next, step) = model.copy(src, dst, len, flash);
    let after = copied(next, step, flash, pages as nat).2;
    assert forall|i: int| 0 <= i < after.len() implies after[i] == wanted[i] by {
        let q = i / size;
        assert(page_at(after, q, size)[i % size] == after[i]);
        assert(page_at(wanted, q, size)[i % size] == wanted[i]);
        if !(first <= q < first + pages) {
            assert(page_at(flash, q, size)[i % size] == flash[i]);
        }
    }
    assert(after =~= wanted);
}

/// Have the writes of the first `done` pages taken page `q` with them? An erase
/// did, for a page that is not written again.
spec fn lost(before: Seq<u8>, first: int, pages: int, done: int, q: int) -> bool {
    exists|p: int|
        first <= p < first + done && #[trigger] in_use(before, p) && same_block(p, q) && !(p <= q
            < first + pages) && !(q < p && erased_by(before, first, q + 1, q))
}

/// A flash to which `done` pages have been written: what is lost is blank, and
/// what is yet to be written is as it was unless its block has been erased.
spec fn losing(flash: Seq<u8>, before: Seq<u8>, first: int, pages: int, done: int) -> bool {
    &&& flash.len() == before.len()
    &&& forall|q: int|
        0 <= q && q * PAGE + PAGE <= flash.len() && lost(before, first, pages, done, q)
            ==> #[trigger] page_at(flash, q, PAGE as int) == blank(PAGE as int)
    &&& forall|q: int|
        first + done <= q < first + pages ==> #[trigger] page_at(flash, q, PAGE as int)
            == if erased_by(before, first, first + done, q) {
            blank(PAGE as int)
        } else {
            page_at(before, q, PAGE as int)
        }
}

/// Writing one page more, whatever it holds.
proof fn lemma_page_lost(
    flash: Seq<u8>,
    before: Seq<u8>,
    page: Seq<u8>,
    first: int,
    pages: int,
    done: int,
)
    requires
        losing(flash, before, first, pages, done),
        page.len() == PAGE,
        0 <= first && 0 <= done < pages,
        (first + pages) * PAGE <= flash.len(),
    ensures
        losing(written(flash, first + done, page), before, first, pages, done + 1),
{
    let size = PAGE as int;
    let p = first + done;
    let after = written(flash, p, page);
    lemma_written_page(flash, p, page, p);
    assert(page_at(flash, p, size) == if erased_by(before, first, p, p) {
        blank(size)
    } else {
        page_at(before, p, size)
    });
    assert forall|q: int|
        0 <= q && q * PAGE + PAGE <= after.len() && lost(
            before,
            first,
            pages,
            done + 1,
            q,
        ) implies #[trigger] page_at(after, q, size) == blank(size) by {
        lemma_written_page(flash, p, page, q);
        assert(page_at(flash, q, size).len() == size);
        let w = choose|w: int|
            first <= w < p + 1 && #[trigger] in_use(before, w) && same_block(w, q) && !(w <= q
                < first + pages) && !(q < w && erased_by(before, first, q + 1, q));
        if w < p {
            assert(lost(before, first, pages, done, q));
        } else if !in_use(flash, p) {
            let i = choose|i: int|
                first <= i < p && same_block(i, p) && #[trigger] in_use(before, i);
            assert(same_block(i, q));
            if q < p && i <= q {
                assert(erased_by(before, first, q + 1, q));
            }
            assert(lost(before, first, pages, done, q));
        }
    }
    assert forall|q: int| p + 1 <= q < first + pages implies #[trigger] page_at(after, q, size)
        == if erased_by(before, first, p + 1, q) {
        blank(size)
    } else {
        page_at(before, q, size)
    } by {
        lemma_written_page(flash, p, page, q);
        assert(page_at(flash, q, size).len() == size);
        if in_use(flash, p) && same_block(q, p) {
            assert(in_use(before, p) && same_block(p, q));
        }
        if erased_by(before, first, p + 1, q) && !erased_by(before, first, p, q) {
            let i = choose|i: int|
                first <= i < p + 1 && same_block(i, q) && #[trigger] in_use(before, i);
            assert(i == p);
            if erased_by(before, first, p, p) {
                let j = choose|j: int|
                    first <= j < p && same_block(j, p) && #[trigger] in_use(before, j);
                assert(same_block(j, q));
            }
            assert(in_use(flash, p));
        }
    }
}

/// A copy goes on to its end, whatever it loses.
proof fn lemma_copy_loses(model: CopierModel, flash: Seq<u8>, before: Seq<u8>)
    requires
        model.wf(),
        model.page is Some && model.page->0.len() == PAGE,
        model.copying.src as int % (PAGE as int) == 0,
        model.copying.dst as int % (PAGE as int) == 0,
        model.copying.src + model.copying.pages * PAGE <= flash.len(),
        model.copying.dst + model.copying.pages * PAGE <= flash.len(),
        losing(
            flash,
            before,
            model.copying.dst as int / (PAGE as int),
            model.copying.pages as int,
            model.copying.next as int,
        ),
    ensures
        ({
            let (next, step) = model.advance(flash);
            let end = copied(
                next,
                step,
                flash,
                (model.copying.pages - model.copying.next) as nat,
            );
            &&& end.1 == Step::<Seq<u8>>::Done(Ok(()))
            &&& losing(
                end.2,
                before,
                model.copying.dst as int / (PAGE as int),
                model.copying.pages as int,
                model.copying.pages as int,
            )
        }),
    decreases model.copying.pages - model.copying.next,
{
    let src = model.copying.src as int;
    let done = model.copying.next as int;
    let pages = model.copying.pages as int;
    let first = model.copying.dst as int / (PAGE as int);
    if done < pages {
        let (moved, step) = model.advance(flash);
        let page = flash.subrange(src + done * PAGE, src + done * PAGE + PAGE);
        assert(write_at(model.page->0, 0, page) =~= page);
        assert(step == Step::Write { page_number: (first + done) as usize, page });
        lemma_page_lost(flash, before, page, first, pages, done);
        let after = written(flash, first + done, page);
        lemma_written_page(flash, first + done, page, first + done);
        let back = CopierModel { page: Some(page), ..moved };
        lemma_copy_loses(back, after, before);
    }
}

/// A copy to a destination that is not [`pages_rewritable`] reports success
/// all the same, but it does not leave what it should: some page that should
/// hold something is blank. Whether what is there can be used is for the check
/// of its descriptor to say.
pub proof fn law_copy_loses_what_cannot_be_rewritten(
    model: CopierModel,
    src: u32,
    dst: u32,
    len: usize,
    flash: Seq<u8>,
)
    requires
        model.page is Some && model.page->0.len() == PAGE,
        apart(src, dst, len, flash),
        !copyable(src, dst, len, flash),
    ensures
        ({
            let pages = pages_of(len as int);
            let wanted = mirrored(flash, src as int, dst as int, pages);
            let (next, step) = model.copy(src, dst, len, flash);
            let end = copied(next, step, flash, pages as nat);
            &&& end.1 == Step::<Seq<u8>>::Done(Ok(()))
            &&& end.2 != wanted
            &&& exists|q: int| #[trigger] in_use(wanted, q) && !in_use(end.2, q)
        }),
{
    let pages = pages_of(len as int);
    let first = dst as int / (PAGE as int);
    let wanted = mirrored(flash, src as int, dst as int, pages);
    let started = CopierModel {
        copying: Copying { src, dst, pages: pages as usize, next: 0 },
        ..model
    };
    assert(losing(flash, flash, first, pages, 0));
    lemma_copy_loses(started, flash, flash);
    let (next, step) = model.copy(src, dst, len, flash);
    let after = copied(next, step, flash, pages as nat).2;
    let (p, q) = choose|p: int, q: int|
        #![trigger in_use(flash, p), in_use(wanted, q)]
        first <= p < first + pages && in_use(flash, p) && 0 <= q && q * PAGE + PAGE
            <= flash.len() && same_block(p, q) && in_use(wanted, q) && !(p <= q < first + pages)
            && !(q < p && erased_by(flash, first, q + 1, q));
    assert(lost(flash, first, pages, pages, q));
    assert(page_at(after, q, PAGE as int) == blank(PAGE as int));
    assert(in_use(wanted, q) && !in_use(after, q));
}

/// A copy that power loss ends after `writes` of its writes has put the first
/// `writes` pages in place, and no more. What lies above them in the destination
/// is as it was or blank, and what lies elsewhere is as it was.
pub proof fn law_interrupted_copy_has_its_first_pages(
    model: CopierModel,
    src: u32,
    dst: u32,
    len: usize,
    flash: Seq<u8>,
    writes: nat,
)
    requires
        model.page is Some && model.page->0.len() == PAGE,
        copyable(src, dst, len, flash),
        writes <= pages_of(len as int),
    ensures
        ({
            let (next, step) = model.copy(src, dst, len, flash);
            let after = copied(next, step, flash, writes).2;
            let end = dst + pages_of(len as int) * PAGE;
            &&& after.len() == flash.len()
            &&& forall|i: int|
                0 <= i < writes * PAGE ==> #[trigger] after[dst + i] == flash[src + i]
            &&& forall|i: int|
                dst + writes * PAGE <= i < end ==> #[trigger] after[i] == flash[i] || after[i]
                    == 0xFF
            &&& forall|i: int|
                0 <= i < dst || end <= i < flash.len() ==> #[trigger] after[i] == flash[i]
        }),
{
    let pages = pages_of(len as int);
    let size = PAGE as int;
    let first = dst as int / size;
    let wanted = mirrored(flash, src as int, dst as int, pages);
    lemma_copy_starts(model, src, dst, len, flash, writes);
    let (next, step) = model.copy(src, dst, len, flash);
    let after = copied(next, step, flash, writes).2;
    let end = dst + pages * PAGE;
    assert forall|i: int| 0 <= i < writes * PAGE implies #[trigger] after[dst + i]
        == flash[src + i] by {
        let q = (dst + i) / size;
        assert(page_at(after, q, size)[(dst + i) % size] == after[dst + i]);
        assert(page_at(wanted, q, size)[(dst + i) % size] == wanted[dst + i]);
    }
    assert forall|i: int|
        (dst + writes * PAGE <= i < flash.len() || 0 <= i < dst) implies #[trigger] after[i]
        == flash[i] || (after[i] == 0xFF && dst <= i < end) by {
        let q = i / size;
        assert(page_at(after, q, size)[i % size] == after[i]);
        assert(page_at(flash, q, size)[i % size] == flash[i]);
        assert(blank(size)[i % size] == 0xFF);
    }
}

/// A copy to whole blocks that power loss has ended after some of its writes
/// can be started again, and then ends as it would have ended.
pub proof fn law_interrupted_copy_can_be_repeated(
    model: CopierModel,
    src: u32,
    dst: u32,
    len: usize,
    flash: Seq<u8>,
    writes: nat,
)
    requires
        model.page is Some && model.page->0.len() == PAGE,
        copyable(src, dst, len, flash),
        writes <= pages_of(len as int),
        dst as int % (BLOCK_PAGES * PAGE) == 0,
        pages_of(len as int) % (BLOCK_PAGES as int) == 0,
    ensures
        ({
            let (next, step) = model.copy(src, dst, len, flash);
            let after = copied(next, step, flash, writes).2;
            let pages = pages_of(len as int);
            &&& copyable(src, dst, len, after)
            &&& mirrored(after, src as int, dst as int, pages) == mirrored(
                flash,
                src as int,
                dst as int,
                pages,
            )
        }),
{
    let pages = pages_of(len as int);
    let size = PAGE as int;
    let first = dst as int / size;
    let wanted = mirrored(flash, src as int, dst as int, pages);
    lemma_copy_starts(model, src, dst, len, flash, writes);
    law_interrupted_copy_has_its_first_pages(model, src, dst, len, flash, writes);
    let (next, step) = model.copy(src, dst, len, flash);
    let after = copied(next, step, flash, writes).2;
    assert(mirrored(after, src as int, dst as int, pages) =~= wanted);
    assert forall|p: int, q: int|
        #![trigger in_use(after, p), in_use(wanted, q)]
        first <= p < first + pages && in_use(after, p) && 0 <= q && q * PAGE + PAGE <= after.len()
            && same_block(p, q) && in_use(wanted, q) && !(p <= q < first + pages) implies q < p
        && erased_by(after, first, q + 1, q) by {
        assert(first <= q < p) by {
            assert(dst == 8192 * (dst as int / 8192));
            assert(first == 16 * (first / 16));
            assert(pages == 16 * (pages / 16));
        }
        assert(page_at(after, p, size).len() == size && page_at(after, q, size).len() == size);
        if q < first + writes {
            assert(in_use(after, q));
        } else {
            assert(in_use(flash, p));
            let i = choose|i: int|
                first <= i < q + 1 && same_block(i, q) && #[trigger] in_use(flash, i);
            assert(same_block(i, p));
            if i < first + writes {
                assert(erased_by(flash, first, first + writes, p));
            } else if erased_by(flash, first, first + writes, i) {
                let j = choose|j: int|
                    first <= j < first + writes && same_block(j, i) && #[trigger] in_use(flash, j);
                assert(same_block(j, p));
            } else {
                assert(page_at(after, i, size).len() == size);
                assert(in_use(after, i));
            }
        }
    }
}

/// The erase block that address `i` is in.
pub open spec fn block_of(i: int) -> int {
    i / (BLOCK_PAGES * PAGE)
}

/// A copy goes on without touching a block it has not come to.
proof fn lemma_copy_leaves_blocks(model: CopierModel, flash: Seq<u8>, writes: nat)
    requires
        model.wf(),
        model.page is Some && model.page->0.len() == PAGE,
        model.copying.src as int % (PAGE as int) == 0,
        model.copying.dst as int % (PAGE as int) == 0,
        model.copying.src + model.copying.pages * PAGE <= flash.len(),
        model.copying.dst + model.copying.pages * PAGE <= flash.len(),
    ensures
        ({
            let (next, step) = model.advance(flash);
            let after = copied(next, step, flash, writes).2;
            let from = model.copying.dst + model.copying.next * PAGE;
            &&& after.len() == flash.len()
            &&& forall|i: int|
                0 <= i < flash.len() && (block_of(i) < block_of(from) || block_of(
                    from + writes * PAGE - 1,
                ) < block_of(i)) ==> #[trigger] after[i] == flash[i]
        }),
    decreases writes,
{
    let size = PAGE as int;
    let src = model.copying.src as int;
    let first = model.copying.dst as int / size + model.copying.next;
    if model.copying.next < model.copying.pages && writes > 0 {
        let (moved, step) = model.advance(flash);
        let page = flash.subrange(
            src + model.copying.next * PAGE,
            src + model.copying.next * PAGE + PAGE,
        );
        assert(write_at(model.page->0, 0, page) =~= page);
        let after = written(flash, first, page);
        let back = CopierModel { page: Some(page), ..moved };
        assert(step == Step::Write { page_number: first as usize, page });
        assert forall|i: int|
            0 <= i < flash.len() && block_of(i) != block_of(first * PAGE) implies
            #[trigger] after[i] == flash[i] by {
            assert(block_of(i) == i / size / 16);
        }
        lemma_copy_leaves_blocks(back, after, (writes - 1) as nat);
    }
}

/// A copy leaves every block alone that holds none of the pages written so
/// far, whatever the destination held. A descriptor in a block of its own above
/// the image is as before until the whole image is written.
pub proof fn law_interrupted_copy_leaves_later_blocks(
    model: CopierModel,
    src: u32,
    dst: u32,
    len: usize,
    flash: Seq<u8>,
    writes: nat,
)
    requires
        model.page is Some && model.page->0.len() == PAGE,
        src as int % (PAGE as int) == 0 && dst as int % (PAGE as int) == 0,
        src + pages_of(len as int) * PAGE <= flash.len() <= u32::MAX,
        dst + pages_of(len as int) * PAGE <= flash.len(),
    ensures
        ({
            let (next, step) = model.copy(src, dst, len, flash);
            let after = copied(next, step, flash, writes).2;
            &&& after.len() == flash.len()
            &&& forall|i: int|
                0 <= i < flash.len() && (block_of(i) < block_of(dst as int) || block_of(
                    dst + writes * PAGE - 1,
                ) < block_of(i)) ==> #[trigger] after[i] == flash[i]
        }),
{
    let pages = pages_of(len as int);
    let started = CopierModel {
        copying: Copying { src, dst, pages: pages as usize, next: 0 },
        ..model
    };
    lemma_copy_leaves_blocks(started, flash, writes);
}

/// Pages are written in ascending order: the page written is the one right
/// after those already written, so whatever lies higher in the destination,
/// its descriptor among it, is written after everything below it.
pub proof fn law_pages_are_written_in_ascending_order(model: CopierModel, flash: Seq<u8>)
    requires
        model.wf(),
        model.copying.dst as int % (PAGE as int) == 0,
    ensures
        ({
            let (next, step) = model.advance(flash);
            step matches Step::Write { page_number, .. } ==> {
                &&& page_number * PAGE == model.copying.dst + model.copying.next * PAGE
                &&& next.copying.next == model.copying.next + 1
                &&& next.copying.dst == model.copying.dst
            }
        }),
{
}

/// Addresses that are not page-aligned are refused before anything is read or
/// written, wherever they lie.
pub proof fn law_misaligned_copy_is_refused(
    model: CopierModel,
    src: u32,
    dst: u32,
    len: usize,
    flash: Seq<u8>,
)
    requires
        src as int % (PAGE as int) != 0 || dst as int % (PAGE as int) != 0,
    ensures
        model.copy(src, dst, len, flash) == (
            model,
            Step::<Seq<u8>>::Done(Err(ErrorCode::INVAL)),
        ),
{
}

/// A copy that cannot start says why, and leaves no trace: nothing to copy is
/// done at once, and without a page, or with one that is too short, there is
/// nothing to copy with.
pub proof fn law_copy_that_cannot_start(
    model: CopierModel,
    src: u32,
    dst: u32,
    len: usize,
    flash: Seq<u8>,
)
    requires
        src as int % 512 == 0 && dst as int % 512 == 0,
    ensures
        ({
            let (next, step) = model.copy(src, dst, len, flash);
            &&& len == 0 ==> next == model && step == Step::<Seq<u8>>::Done(Ok(()))
            &&& len > 0 && model.page is None ==> next == model && step == Step::<Seq<u8>>::Done(
                Err(ErrorCode::NOMEM),
            )
            &&& len > 0 && model.page is Some && model.page->0.len() < 512 ==> next == model
                && step == Step::<Seq<u8>>::Done(Err(ErrorCode::SIZE))
            &&& len > 0 && model.page is Some && model.page->0.len() >= 512 ==> step is Write
        }),
{
}

/// A copy goes on only once its page is back: if it is not, the copy stops.
pub proof fn law_copy_waits_for_its_page(model: CopierModel, flash: Seq<u8>)
    ensures
        model.page is None ==> model.write_started(flash) == (
            model,
            Step::<Seq<u8>>::Done(Err(ErrorCode::FAIL)),
        ),
        model.page is Some && model.page->0.len() >= 512 && model.copying.next
            < model.copying.pages ==> model.write_started(flash).1 is Write,
        model.page is Some && model.copying.next >= model.copying.pages
            ==> model.write_started(flash) == (model, Step::<Seq<u8>>::Done(Ok(()))),
{
}

/// How many pages a length takes: as many as hold it, and no more.
pub proof fn law_length_in_whole_pages(len: int)
    requires
        0 <= len,
    ensures
        512 * pages_of(len) - 512 < len <= 512 * pages_of(len),
{
}

/// What it takes for a copy to get as far as its first page: aligned addresses,
/// something to copy, and a page to copy it with.
pub proof fn law_copy_that_starts(model: CopierModel, src: u32, dst: u32, len: usize)
    ensures
        model.starts(src, dst, len) <==> {
            &&& src as int % 512 == 0 && dst as int % 512 == 0 && len > 0
            &&& model.page is Some && model.page->0.len() >= 512
        },
{
}

} // verus!

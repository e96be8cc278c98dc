//! What whole exchanges with a tester leave in flash.
//!
//! The laws here run a server together with a flash that does what it is
//! asked, from a request to the answer.

use vstd::prelude::*;

use crate::actions::{transmit, Action};
use crate::bytes::{
    be_bytes, be_bytes_u16, be_u16, be_u32, law_le_reversed_is_be, le_bytes, write_at,
};
use crate::crc::{crc32, crc_of_bytes, law_crc_in_pieces};
use crate::flash::{
    blank, erased, lemma_index_in_page, lemma_page_part, lemma_pages_apart, lemma_written_page,
    page_at, written,
};
use crate::paging::{
    lemma_join, lemma_page_inside, lemma_page_order, lemma_round_up, lemma_split,
    lemma_start_order,
};
use crate::uds::codes::{
    ATTRIBUTE_RECORD, BLOCK_PAGES, DID_ATTRIBUTE_BASE, DID_ATTRIBUTE_LAST,
    DID_KERNEL_START_ADDRESS, Job, Limits, NRC_GENERAL_PROGRAMMING_FAILURE, NRC_RESPONSE_PENDING,
    ROUTINE_CHECK_MEMORY, ROUTINE_ERASE_MEMORY, ROUTINE_START, SID_READ_DATA_BY_IDENTIFIER,
    SID_ROUTINE_CONTROL, SID_TRANSFER_DATA, SID_WRITE_DATA_BY_IDENTIFIER, TRANSFER_BLOCK, Vars,
};
use crate::uds::model::{
    identifier_value, least, negative, padded, page_of, positive, UdsModel,
};
use crate::uds::server::{lemma_block_start, lemma_message_received_wf, lemma_page_in_block};

verus! {

/// Does the flash hold whole pages, and all the server may address?
pub open spec fn covers(flash: Seq<u8>, limits: Limits) -> bool {
    &&& limits.flash_end <= flash.len()
    &&& flash.len() as int % (limits.page_len as int) == 0
}

/// A server at work: its state, what it asks for, and the flash.
pub struct Scene {
    pub model: UdsModel,
    pub action: Action<Seq<u8>>,
    pub flash: Seq<u8>,
}

/// Let the flash do what is asked of it, up to `operations` times, until the
/// server asks for something else.
pub open spec fn worked(scene: Scene, operations: nat) -> Scene
    decreases operations,
{
    if operations == 0 {
        scene
    } else {
        let rest = (operations - 1) as nat;
        let page_len = scene.model.limits.page_len as int;
        match scene.action {
            Action::ReadPage { page_number, page: _ } => {
                let (model, action) = scene.model.read_complete(
                    page_at(scene.flash, page_number as int, page_len),
                );
                worked(Scene { model, action, flash: scene.flash }, rest)
            },
            Action::WritePage { page_number, page } => {
                let (model, action) = scene.model.write_complete(page, true);
                let flash = written(scene.flash, page_number as int, page);
                worked(Scene { model, action, flash }, rest)
            },
            Action::ErasePage { page_number } => {
                let (model, action) = scene.model.erase_complete(true);
                let flash = erased(scene.flash, page_number as int, page_len);
                worked(Scene { model, action, flash }, rest)
            },
            _ => scene,
        }
    }
}

/// Drive the current job on: one step, and then all the flash work it takes.
pub open spec fn driven(model: UdsModel, flash: Seq<u8>, operations: nat) -> Scene {
    let (next, action) = model.step();
    worked(Scene { model: next, action, flash }, operations)
}

/// A request, the 0x78 that answers it, and the work that follows.
pub open spec fn routine_run(
    model: UdsModel,
    request: Seq<u8>,
    len: int,
    flash: Seq<u8>,
    operations: nat,
) -> Scene {
    let (asked, answer) = model.message_received(request, len, true);
    match answer {
        Action::Transmit { buffer, len: _ } => {
            let (next, action) = asked.message_transmitted(buffer);
            worked(Scene { model: next, action, flash }, operations)
        },
        _ => Scene { model: asked, action: answer, flash },
    }
}

// -- Check memory ---------------------------------------------------------

/// Checksumming what is left of a range, page by page.
proof fn lemma_crc_driven(model: UdsModel, flash: Seq<u8>, operations: nat)
    requires
        model.wf(),
        model.page_buffer is Some,
        model.buffer is Some,
        model.vars.job is Crc,
        covers(flash, model.limits),
        operations >= model.vars.job->remaining,
    ensures
        ({
            let address = model.vars.job->Crc_address as int;
            let remaining = model.vars.job->remaining as int;
            let end = driven(model, flash, operations);
            &&& end.flash == flash
            &&& end.model.vars.job is Idle
            &&& end.action == transmit(
                model.buffer->0,
                seq![positive(SID_ROUTINE_CONTROL), ROUTINE_START] + be_bytes_u16(
                    ROUTINE_CHECK_MEMORY,
                ) + be_bytes(
                    crc_of_bytes(model.vars.job->crc, flash.subrange(address, address + remaining))
                        ^ 0xFFFF_FFFF,
                ),
            )
        }),
    decreases operations,
{
    let address = model.vars.job->Crc_address as int;
    let remaining = model.vars.job->remaining as int;
    let crc = model.vars.job->crc;
    let page_len = model.limits.page_len as int;
    if remaining == 0 {
        assert(flash.subrange(address, address) =~= Seq::<u8>::empty());
    } else {
        let (reading, action) = model.step();
        let take = UdsModel::crc_len(address as u32, remaining as u32, page_len);
        lemma_page_part(flash, address, take, page_len);
        let page = page_at(flash, address / page_len, page_len);
        assert(action == Action::ReadPage {
            page_number: (address / page_len) as usize,
            page: model.page_buffer->0,
        });
        let next = UdsModel {
            vars: Vars {
                job: Job::Crc {
                    address: (address + take) as u32,
                    remaining: (remaining - take) as u32,
                    crc: crc_of_bytes(crc, flash.subrange(address, address + take)),
                },
                ..model.vars
            },
            page_buffer: Some(page),
            ..model
        };
        assert(reading.read_complete(page) == next.step());
        assert(driven(model, flash, operations) == driven(next, flash, (operations - 1) as nat));
        lemma_crc_driven(next, flash, (operations - 1) as nat);
        law_crc_in_pieces(
            crc,
            flash.subrange(address, address + take),
            flash.subrange(address + take, address + remaining),
        );
        assert(flash.subrange(address, address + take) + flash.subrange(
            address + take,
            address + remaining,
        ) =~= flash.subrange(address, address + remaining));
    }
}

/// Is this an acceptable request to start `routine` on a range?
pub open spec fn asks_routine(model: UdsModel, request: Seq<u8>, len: int, routine: u16) -> bool {
    &&& 12 <= len <= request.len()
    &&& request[0] == SID_ROUTINE_CONTROL
    &&& request[1] == ROUTINE_START
    &&& be_u16(request, 2) == routine
    &&& model.limits.range_ok(be_u32(request, 4), be_u32(request, 8))
}

/// CheckMemory answers the CRC-32 of exactly the flash that was asked about,
/// however it falls on pages, and changes nothing.
pub proof fn law_check_memory_reports_the_crc(
    model: UdsModel,
    request: Seq<u8>,
    len: int,
    flash: Seq<u8>,
)
    requires
        model.wf(),
        model.buffer is None,
        model.unlocked(),
        covers(flash, model.limits),
        asks_routine(model, request, len, ROUTINE_CHECK_MEMORY),
    ensures
        ({
            let address = be_u32(request, 4) as int;
            let size = be_u32(request, 8) as int;
            let pending = write_at(request, 0, negative(SID_ROUTINE_CONTROL, NRC_RESPONSE_PENDING));
            let end = routine_run(model, request, len, flash, size as nat);
            &&& end.flash == flash
            &&& end.model.vars.job is Idle
            &&& end.action == transmit(
                pending,
                seq![positive(SID_ROUTINE_CONTROL), ROUTINE_START] + be_bytes_u16(
                    ROUTINE_CHECK_MEMORY,
                ) + be_bytes(crc32(flash.subrange(address, address + size))),
            )
        }),
{
    let (asked, answer) = model.message_received(request, len, true);
    let pending = write_at(request, 0, negative(SID_ROUTINE_CONTROL, NRC_RESPONSE_PENDING));
    let size = be_u32(request, 8) as nat;
    lemma_crc_driven(UdsModel { buffer: Some(pending), ..asked }, flash, size);
}

// -- Erase memory ---------------------------------------------------------

/// The flash with every erase block that holds one of the pages
/// `page..end` erased.
pub open spec fn erased_pages(flash: Seq<u8>, page: int, end: int, page_len: int) -> Seq<u8> {
    let blocks = BLOCK_PAGES as int;
    Seq::new(
        flash.len(),
        |i: int|
            if page < end && page / blocks <= i / page_len / blocks <= (end - 1) / blocks {
                0xFFu8
            } else {
                flash[i]
            },
    )
}

/// Erasing what is left of a range, page by page.
proof fn lemma_erase_driven(model: UdsModel, flash: Seq<u8>, operations: nat)
    requires
        model.wf(),
        model.buffer is Some,
        model.vars.job is Erase,
        operations >= model.vars.job->Erase_end - model.vars.job->Erase_page,
    ensures
        ({
            let end = driven(model, flash, operations);
            &&& end.flash == erased_pages(
                flash,
                model.vars.job->Erase_page as int,
                model.vars.job->Erase_end as int,
                model.limits.page_len as int,
            )
            &&& end.model.vars.job is Idle
            &&& end.action == transmit(
                model.buffer->0,
                seq![positive(SID_ROUTINE_CONTROL), ROUTINE_START] + be_bytes_u16(
                    ROUTINE_ERASE_MEMORY,
                ),
            )
        }),
    decreases operations,
{
    let page = model.vars.job->Erase_page as int;
    let end = model.vars.job->Erase_end as int;
    let page_len = model.limits.page_len as int;
    if page >= end {
        assert(flash =~= erased_pages(flash, page, end, page_len));
    } else {
        let next = UdsModel {
            vars: Vars {
                job: Job::Erase { page: (page + 1) as usize, end: end as usize },
                ..model.vars
            },
            ..model
        };
        let erased_one = erased(flash, page, page_len);
        assert(driven(model, flash, operations) == driven(
            next,
            erased_one,
            (operations - 1) as nat,
        ));
        lemma_erase_driven(next, erased_one, (operations - 1) as nat);
        assert(erased_pages(erased_one, page + 1, end, page_len) =~= erased_pages(
            flash,
            page,
            end,
            page_len,
        ));
    }
}

/// EraseMemory leaves every byte of the range erased, and touches no erase
/// block that holds none of it.
pub proof fn law_erase_memory_erases_the_range(
    model: UdsModel,
    request: Seq<u8>,
    len: int,
    flash: Seq<u8>,
)
    requires
        model.wf(),
        model.buffer is None,
        model.unlocked(),
        covers(flash, model.limits),
        asks_routine(model, request, len, ROUTINE_ERASE_MEMORY),
    ensures
        ({
            let address = be_u32(request, 4) as int;
            let size = be_u32(request, 8) as int;
            let page_len = model.limits.page_len as int;
            let block_len = BLOCK_PAGES * page_len;
            let pending = write_at(request, 0, negative(SID_ROUTINE_CONTROL, NRC_RESPONSE_PENDING));
            let end = routine_run(model, request, len, flash, (size + 1) as nat);
            &&& end.flash.len() == flash.len()
            &&& forall|i: int| address <= i < address + size ==> end.flash[i] == 0xFF
            &&& forall|i: int|
                0 <= i < flash.len() && (i / block_len < address / block_len || i / block_len > (
                address + size - 1) / block_len) ==> end.flash[i] == flash[i]
            &&& end.model.vars.job is Idle
            &&& end.action == transmit(
                pending,
                seq![positive(SID_ROUTINE_CONTROL), ROUTINE_START] + be_bytes_u16(
                    ROUTINE_ERASE_MEMORY,
                ),
            )
        }),
{
    let address = be_u32(request, 4) as int;
    let size = be_u32(request, 8) as int;
    let page_len = model.limits.page_len as int;
    let block_len = BLOCK_PAGES * page_len;
    let (asked, answer) = model.message_received(request, len, true);
    let pending = write_at(request, 0, negative(SID_ROUTINE_CONTROL, NRC_RESPONSE_PENDING));
    let first = address / page_len;
    let last = (address + size + page_len - 1) / page_len;
    lemma_split(address, page_len);
    lemma_round_up(address + size, page_len);
    lemma_page_order(address, address + size - 1, page_len);
    lemma_pages_spanned(address, size, page_len);
    lemma_split(address + size + page_len - 1, page_len);
    let holding = UdsModel { buffer: Some(pending), ..asked };
    lemma_routine_started(model, request, len);
    lemma_erase_driven(holding, flash, (size + 1) as nat);
    let end = routine_run(model, request, len, flash, (size + 1) as nat);
    assert forall|i: int| address <= i < address + size implies end.flash[i] == 0xFF by {
        lemma_page_order(address, i, page_len);
        lemma_page_order(i, address + size - 1, page_len);
    }
    assert forall|i: int|
        0 <= i < flash.len() && (i / block_len < address / block_len || i / block_len > (address
            + size - 1) / block_len) implies end.flash[i] == flash[i] by {
        lemma_div_twice(i, page_len);
        lemma_div_twice(address, page_len);
        lemma_div_twice(address + size - 1, page_len);
    }
}

/// A range touches no more pages than it has bytes, and one.
proof fn lemma_pages_spanned(address: int, size: int, page_len: int)
    requires
        0 <= address,
        0 < size,
        0 < page_len,
    ensures
        (address + size - 1) / page_len - address / page_len <= size,
{
    let first = address / page_len;
    let last = (address + size - 1) / page_len;
    lemma_split(address, page_len);
    lemma_split(address + size - 1, page_len);
    if last - first > size {
        assert(last * page_len - first * page_len >= last - first + page_len - 1)
            by (nonlinear_arith)
            requires
                last - first >= 1,
                1 <= page_len,
        ;
    }
}

/// The block a byte is in, by pages or directly.
proof fn lemma_div_twice(i: int, page_len: int)
    requires
        0 <= i,
        0 < page_len,
    ensures
        i / page_len / 16 == i / (16 * page_len),
{
    vstd::arithmetic::div_mod::lemma_div_denominator(i, page_len, 16);
    assert(page_len * 16 == 16 * page_len);
}

/// Asking for a routine keeps the state well formed.
proof fn lemma_routine_started(model: UdsModel, request: Seq<u8>, len: int)
    requires
        model.wf(),
        model.buffer is None,
        0 <= len <= request.len(),
        model.unlocked(),
        asks_routine(model, request, len, ROUTINE_ERASE_MEMORY),
    ensures
        (UdsModel {
            buffer: Some(write_at(request, 0, negative(SID_ROUTINE_CONTROL, NRC_RESPONSE_PENDING))),
            ..model.message_received(request, len, true).0
        }).wf(),
{
    lemma_message_received_wf(model, request, len, true);
}

// -- Rewriting an identifier ----------------------------------------------

/// Can the block be written back page by page in ascending order? A write to
/// a page that is not blank erases the block, so nothing may have been put
/// below the first such page by then.
pub open spec fn rewritable(
    flash: Seq<u8>,
    block: Seq<u8>,
    first_page: int,
    page_len: int,
) -> bool {
    forall|j: int, k: int|
        0 <= j < k < BLOCK_PAGES && #[trigger] page_at(block, j, page_len) != blank(page_len)
            && #[trigger] page_at(flash, first_page + k, page_len) != blank(page_len)
            ==> exists|i: int|
            0 <= i <= j && #[trigger] page_at(flash, first_page + i, page_len) != blank(page_len)
}

/// How far the block has been written back: `page` of its pages hold what
/// they should, and the others are all blank or all untouched.
spec fn rewriting(
    flash: Seq<u8>,
    before: Seq<u8>,
    block: Seq<u8>,
    first_page: int,
    page: int,
    page_len: int,
) -> bool {
    &&& flash.len() == before.len()
    &&& forall|i: int|
        0 <= i < flash.len() && i / page_len / 16 != first_page / 16 ==> #[trigger] flash[i]
            == before[i]
    &&& forall|i: int|
        0 <= i < page ==> #[trigger] page_at(flash, first_page + i, page_len) == page_at(
            block,
            i,
            page_len,
        )
    &&& {
        ||| forall|i: int|
            page <= i < BLOCK_PAGES ==> #[trigger] page_at(flash, first_page + i, page_len)
                == blank(page_len)
        ||| {
            &&& forall|i: int|
                page <= i < BLOCK_PAGES ==> #[trigger] page_at(flash, first_page + i, page_len)
                    == page_at(before, first_page + i, page_len)
            &&& forall|i: int|
                0 <= i < page ==> #[trigger] page_at(block, i, page_len) == blank(page_len)
            &&& forall|i: int|
                0 <= i < page ==> #[trigger] page_at(before, first_page + i, page_len) == blank(
                    page_len,
                )
        }
    }
}

/// Writing the next page back.
proof fn lemma_rewriting_on(
    flash: Seq<u8>,
    before: Seq<u8>,
    block: Seq<u8>,
    first_page: int,
    page: int,
    page_len: int,
)
    requires
        rewriting(flash, before, block, first_page, page, page_len),
        rewritable(before, block, first_page, page_len),
        0 <= page < BLOCK_PAGES,
        0 < page_len,
        0 <= first_page,
        first_page % 16 == 0,
        (first_page + 16) * page_len <= flash.len(),
        16 * page_len <= block.len(),
    ensures
        rewriting(
            written(flash, first_page + page, page_at(block, page, page_len)),
            before,
            block,
            first_page,
            page + 1,
            page_len,
        ),
{
    let p = first_page + page;
    let content = page_at(block, page, page_len);
    let after = written(flash, p, content);
    lemma_index_in_page(page, 0, page_len);
    lemma_page_in_block(page, page_len);
    assert(content.len() == page_len);
    assert forall|i: int| 0 <= i < BLOCK_PAGES implies {
        &&& 0 <= (first_page + i) * page_len
        &&& #[trigger] ((first_page + i) * page_len) + page_len <= flash.len()
        &&& (first_page + i) / 16 == first_page / 16
    } by {
        lemma_index_in_page(first_page + i, 0, page_len);
        if i < 15 {
            lemma_pages_apart(first_page + i, first_page + 15, page_len);
        }
        assert((first_page + 15) * page_len + page_len == (first_page + 16) * page_len)
            by (nonlinear_arith);
    }
    assert forall|i: int| 0 <= i < BLOCK_PAGES implies #[trigger] page_at(
        after,
        first_page + i,
        page_len,
    ) == if i == page {
        content
    } else if page_at(flash, p, page_len) != blank(page_len) {
        blank(page_len)
    } else {
        page_at(flash, first_page + i, page_len)
    } by {
        assert(((first_page + page) * page_len) + page_len <= flash.len());
        assert(((first_page + i) * page_len) + page_len <= flash.len());
        lemma_written_page(flash, p, content, first_page + i);
    }
    assert(((first_page + page) * page_len) + page_len <= flash.len());
    lemma_written_page(flash, p, content, p);
    assert forall|i: int|
        0 <= i < after.len() && i / page_len / 16 != first_page / 16 implies #[trigger] after[i]
        == before[i] by {
        if p * page_len <= i < p * page_len + page_len {
            lemma_index_in_page(p, i - p * page_len, page_len);
        }
        assert(flash[i] == before[i]);
    }
    assert(page_at(before, first_page + page, page_len) == page_at(before, p, page_len));
    if page_at(flash, p, page_len) == blank(page_len) && content != blank(page_len) {
        assert(page_at(block, page, page_len) != blank(page_len));
        assert forall|k: int| page + 1 <= k < BLOCK_PAGES implies #[trigger] page_at(
            after,
            first_page + k,
            page_len,
        ) == blank(page_len) by {
            assert(page_at(flash, first_page + k, page_len) == blank(page_len)) by {
                if page_at(flash, first_page + k, page_len) != blank(page_len) {
                    assert(page_at(before, first_page + k, page_len) != blank(page_len));
                    let i = choose|i: int|
                        0 <= i <= page && #[trigger] page_at(before, first_page + i, page_len)
                            != blank(page_len);
                    assert(page_at(before, first_page + i, page_len) != blank(page_len));
                    assert(page_at(flash, first_page + page, page_len) == page_at(
                        before,
                        first_page + page,
                        page_len,
                    ));
                }
            }
        }
    }
}

/// Writing the staged block back, page by page.
proof fn lemma_stage_writes(model: UdsModel, flash: Seq<u8>, before: Seq<u8>, operations: nat)
    requires
        model.wf(),
        model.buffer is Some,
        model.page_buffer is Some,
        model.vars.job is StageWrite,
        operations >= BLOCK_PAGES - model.vars.job->StageWrite_page,
        model.vars.stage_first_page as int % 16 == 0,
        (model.vars.stage_first_page + 16) * model.limits.page_len <= flash.len(),
        rewriting(
            flash,
            before,
            model.stage,
            model.vars.stage_first_page as int,
            model.vars.job->StageWrite_page as int,
            model.limits.page_len as int,
        ),
        rewritable(
            before,
            model.stage,
            model.vars.stage_first_page as int,
            model.limits.page_len as int,
        ),
    ensures
        ({
            let end = driven(model, flash, operations);
            &&& rewriting(
                end.flash,
                before,
                model.stage,
                model.vars.stage_first_page as int,
                BLOCK_PAGES as int,
                model.limits.page_len as int,
            )
            &&& end.model.limits == model.limits
            &&& end.model.vars == (Vars { job: Job::Idle, ..model.vars })
            &&& end.model.page_buffer is Some
            &&& end.model.buffer is None
            &&& end.model.wf()
            &&& end.action == transmit(
                model.buffer->0,
                seq![positive(SID_WRITE_DATA_BY_IDENTIFIER)] + be_bytes_u16(model.vars.pending_did),
            )
        }),
    decreases operations,
{
    let page = model.vars.job->StageWrite_page as int;
    let page_len = model.limits.page_len as int;
    let first = model.vars.stage_first_page as int;
    if page < BLOCK_PAGES {
        lemma_index_in_page(page, 0, page_len);
        lemma_page_in_block(page, page_len);
        lemma_rewriting_on(flash, before, model.stage, first, page, page_len);
        let content = page_at(model.stage, page, page_len);
        let next = UdsModel {
            vars: Vars {
                job: Job::StageWrite { page: (page + 1) as usize, end: BLOCK_PAGES },
                ..model.vars
            },
            page_buffer: Some(content),
            ..model
        };
        assert(first + page <= u32::MAX) by {
            assert(first + 16 <= first * page_len + 16 * page_len) by (nonlinear_arith)
                requires
                    0 <= first,
                    0 < page_len,
            ;
        }
        let after = written(flash, first + page, content);
        assert(driven(model, flash, operations) == driven(next, after, (operations - 1) as nat));
        lemma_stage_writes(next, after, before, (operations - 1) as nat);
    }
}

/// Copying the block into RAM, page by page.
proof fn lemma_stage_reads(model: UdsModel, flash: Seq<u8>, operations: nat) -> (done: UdsModel)
    requires
        model.wf(),
        model.buffer is Some,
        model.page_buffer is Some,
        model.vars.job is StageRead,
        operations >= BLOCK_PAGES - model.vars.job->StageRead_page,
        (model.vars.stage_first_page + 16) * model.limits.page_len <= flash.len(),
        forall|i: int|
            0 <= i < model.vars.job->StageRead_page ==> #[trigger] page_at(
                model.stage,
                i,
                model.limits.page_len as int,
            ) == page_at(
                flash,
                model.vars.stage_first_page + i,
                model.limits.page_len as int,
            ),
    ensures
        done.wf(),
        done.page_buffer is Some,
        done == (UdsModel {
            vars: Vars {
                job: Job::StageRead { page: BLOCK_PAGES, end: BLOCK_PAGES },
                ..model.vars
            },
            stage: done.stage,
            page_buffer: done.page_buffer,
            ..model
        }),
        forall|i: int|
            0 <= i < BLOCK_PAGES ==> #[trigger] page_at(
                done.stage,
                i,
                model.limits.page_len as int,
            ) == page_at(
                flash,
                model.vars.stage_first_page + i,
                model.limits.page_len as int,
            ),
        driven(model, flash, operations) == driven(
            done,
            flash,
            (operations - (BLOCK_PAGES - model.vars.job->StageRead_page)) as nat,
        ),
    decreases operations,
{
    let page = model.vars.job->StageRead_page as int;
    let page_len = model.limits.page_len as int;
    let first = model.vars.stage_first_page as int;
    if page >= BLOCK_PAGES {
        model
    } else {
        lemma_index_in_page(page, 0, page_len);
        lemma_page_in_block(page, page_len);
        let content = page_at(flash, first + page, page_len);
        lemma_index_in_page(first + page, 0, page_len);
        if page < 15 {
            lemma_pages_apart(first + page, first + 15, page_len);
        }
        assert((first + 15) * page_len + page_len == (first + 16) * page_len) by (nonlinear_arith);
        assert(content.len() == page_len);
        assert(first + page <= u32::MAX) by {
            assert(first + 16 <= first * page_len + 16 * page_len) by (nonlinear_arith)
                requires
                    0 <= first,
                    0 < page_len,
            ;
        }
        let next = UdsModel {
            vars: Vars {
                job: Job::StageRead { page: (page + 1) as usize, end: BLOCK_PAGES },
                ..model.vars
            },
            page_buffer: Some(content),
            stage: write_at(model.stage, page * page_len, content),
            ..model
        };
        assert forall|i: int| 0 <= i < page + 1 implies #[trigger] page_at(next.stage, i, page_len)
            == page_at(flash, first + i, page_len) by {
            lemma_index_in_page(i, 0, page_len);
            if i < page {
                lemma_pages_apart(i, page, page_len);
                assert(page_at(next.stage, i, page_len) =~= page_at(model.stage, i, page_len));
            } else {
                assert(page_at(next.stage, i, page_len) =~= content);
            }
        }
        assert(driven(model, flash, operations) == driven(next, flash, (operations - 1) as nat));
        lemma_stage_reads(next, flash, (operations - 1) as nat)
    }
}

/// Patching the staged copy and patching the flash give the same pages.
proof fn lemma_patched_page(
    stage: Seq<u8>,
    flash: Seq<u8>,
    first_page: int,
    q: int,
    page_len: int,
    offset: int,
    patch: Seq<u8>,
)
    requires
        0 < page_len,
        0 <= first_page,
        0 <= q < 16,
        16 * page_len <= stage.len(),
        (first_page + 16) * page_len <= flash.len(),
        0 <= offset,
        page_at(stage, q, page_len) == page_at(flash, first_page + q, page_len),
    ensures
        page_at(write_at(stage, offset, patch), q, page_len) == page_at(
            write_at(flash, first_page * page_len + offset, patch),
            first_page + q,
            page_len,
        ),
{
    lemma_index_in_page(q, 0, page_len);
    lemma_index_in_page(first_page, 0, page_len);
    lemma_page_in_block(q, page_len);
    let base = first_page * page_len;
    assert((first_page + q) * page_len == base + q * page_len && (first_page + 16) * page_len
        == base + 16 * page_len) by (nonlinear_arith)
        requires
            base == first_page * page_len,
    ;
    assert forall|j: int| 0 <= j < page_len implies page_at(
        write_at(stage, offset, patch),
        q,
        page_len,
    )[j] == page_at(write_at(flash, base + offset, patch), first_page + q, page_len)[j] by {
        assert(page_at(stage, q, page_len)[j] == stage[q * page_len + j]);
        assert(page_at(flash, first_page + q, page_len)[j] == flash[base + q * page_len + j]);
    }
    assert(page_at(write_at(stage, offset, patch), q, page_len) =~= page_at(
        write_at(flash, base + offset, patch),
        first_page + q,
        page_len,
    ));
}

/// A block written back in full is the flash that was wanted.
proof fn lemma_block_restored(
    flash: Seq<u8>,
    before: Seq<u8>,
    block: Seq<u8>,
    wanted: Seq<u8>,
    first_page: int,
    page_len: int,
)
    requires
        rewriting(flash, before, block, first_page, 16, page_len),
        0 < page_len,
        0 <= first_page,
        first_page % 16 == 0,
        wanted.len() == before.len(),
        (first_page + 16) * page_len <= flash.len(),
        forall|q: int|
            0 <= q < 16 ==> #[trigger] page_at(block, q, page_len) == page_at(
                wanted,
                first_page + q,
                page_len,
            ),
        forall|i: int|
            0 <= i < before.len() && !(first_page * page_len <= i < (first_page + 16) * page_len)
                ==> #[trigger] wanted[i] == before[i],
    ensures
        flash == wanted,
{
    assert forall|i: int| 0 <= i < flash.len() implies flash[i] == wanted[i] by {
        let p = i / page_len;
        let j = i % page_len;
        lemma_split(i, page_len);
        if p / 16 == first_page / 16 {
            let q = p - first_page;
            assert(0 <= q < 16);
            lemma_index_in_page(p, 0, page_len);
            if p < first_page + 15 {
                lemma_pages_apart(p, first_page + 15, page_len);
            }
            assert((first_page + 15) * page_len + page_len == (first_page + 16) * page_len)
                by (nonlinear_arith);
            assert(page_at(flash, first_page + q, page_len) == page_at(block, q, page_len));
            assert(page_at(flash, first_page + q, page_len)[j] == flash[p * page_len + j]);
            assert(page_at(wanted, first_page + q, page_len)[j] == wanted[p * page_len + j]);
        } else {
            if p < first_page {
                lemma_pages_apart(p, first_page, page_len);
            } else {
                assert(p >= first_page + 16);
                assert(p * page_len >= (first_page + 16) * page_len) by (nonlinear_arith)
                    requires
                        p >= first_page + 16,
                        0 < page_len,
                ;
            }
            assert(flash[i] == before[i]);
        }
    }
    assert(flash =~= wanted);
}

/// Where an identifier that lives in flash lives.
pub open spec fn identifier_at(model: UdsModel, did: u16) -> int {
    if did == DID_KERNEL_START_ADDRESS {
        model.start_address_at()
    } else {
        model.attribute_at(did)
    }
}

/// How many bytes it takes up there.
pub open spec fn identifier_len(did: u16) -> int {
    if did == DID_KERNEL_START_ADDRESS {
        4
    } else {
        ATTRIBUTE_RECORD as int
    }
}

/// The bytes a request to write an identifier puts into flash: an address
/// least significant byte first, a record padded with zeros.
pub open spec fn identifier_patch(request: Seq<u8>, len: int) -> Seq<u8> {
    if be_u16(request, 1) == DID_KERNEL_START_ADDRESS {
        le_bytes(be_u32(request, 3))
    } else {
        padded(request.subrange(3, len))
    }
}

/// Is this a request to write an identifier that lives in flash, with a value
/// it can have?
pub open spec fn asks_identifier_write(model: UdsModel, request: Seq<u8>, len: int) -> bool {
    let did = be_u16(request, 1);
    let start = be_u32(request, 3);
    &&& 3 <= len <= request.len()
    &&& request[0] == SID_WRITE_DATA_BY_IDENTIFIER
    &&& {
        ||| did == DID_KERNEL_START_ADDRESS && len == 7 && model.limits.write_floor <= start
            < model.limits.flash_end
        ||| DID_ATTRIBUTE_BASE <= did <= DID_ATTRIBUTE_LAST && len - 3 <= ATTRIBUTE_RECORD
    }
}

/// Can the block an identifier lives in be rewritten here and now: it does
/// not hold the bootloader, it lies in flash, it fits the staging buffer, and
/// its pages can be put back in ascending order.
pub open spec fn identifier_rewritable(
    model: UdsModel,
    request: Seq<u8>,
    len: int,
    flash: Seq<u8>,
) -> bool {
    let at = identifier_at(model, be_u16(request, 1));
    let patch = identifier_patch(request, len);
    let page_len = model.limits.page_len as int;
    let first = model.limits.block_first_page(at);
    &&& model.stageable(at, patch.len() as usize) is Ready
    &&& (first + 16) * page_len <= flash.len()
    &&& rewritable(
        flash,
        write_at(flash, at, patch).subrange(first * page_len, (first + 16) * page_len),
        first,
        page_len,
    )
}

/// A staged rewrite, from the state in which 0x78 has just been sent.
#[verifier::rlimit(40)]
proof fn lemma_rewrite_driven(model: UdsModel, flash: Seq<u8>, at: int, patch: Seq<u8>)
    requires
        model.wf(),
        model.buffer is Some,
        model.page_buffer is Some,
        model.vars.job == (Job::StageRead { page: 0, end: BLOCK_PAGES }),
        0 <= at,
        model.vars.stage_first_page == model.limits.block_first_page(at),
        model.vars.patch_offset == at - model.vars.stage_first_page * model.limits.page_len,
        patch == model.patch.take(model.vars.patch_len as int),
        (model.vars.stage_first_page + 16) * model.limits.page_len <= flash.len(),
        rewritable(
            flash,
            write_at(flash, at, patch).subrange(
                model.vars.stage_first_page * model.limits.page_len,
                (model.vars.stage_first_page + 16) * model.limits.page_len,
            ),
            model.vars.stage_first_page as int,
            model.limits.page_len as int,
        ),
    ensures
        ({
            let end = driven(model, flash, 32);
            &&& end.flash == write_at(flash, at, patch)
            &&& end.model.limits == model.limits
            &&& end.model.vars == (Vars { job: Job::Idle, ..model.vars })
            &&& end.model.page_buffer is Some
            &&& end.model.buffer is None
            &&& end.model.wf()
            &&& end.action == transmit(
                model.buffer->0,
                seq![positive(SID_WRITE_DATA_BY_IDENTIFIER)] + be_bytes_u16(model.vars.pending_did),
            )
        }),
{
    let page_len = model.limits.page_len as int;
    let first = model.vars.stage_first_page as int;
    let offset = model.vars.patch_offset as int;
    let wanted = write_at(flash, at, patch);
    let done = lemma_stage_reads(model, flash, 32);
    let patched = UdsModel {
        vars: Vars { job: Job::StageWrite { page: 0, end: BLOCK_PAGES }, ..done.vars },
        stage: write_at(done.stage, offset, patch),
        ..done
    };
    assert(done.step() == patched.step());
    assert(driven(done, flash, 16) == driven(patched, flash, 16));
    assert((first + 16) * page_len == first * page_len + 16 * page_len) by (nonlinear_arith);
    lemma_index_in_page(first, 0, page_len);
    let block = wanted.subrange(first * page_len, (first + 16) * page_len);
    assert forall|q: int| 0 <= q < 16 implies #[trigger] page_at(patched.stage, q, page_len)
        == page_at(wanted, first + q, page_len) && page_at(block, q, page_len) == page_at(
        wanted,
        first + q,
        page_len,
    ) by {
        assert(page_at(done.stage, q, page_len) == page_at(flash, first + q, page_len));
        lemma_patched_page(done.stage, flash, first, q, page_len, offset, patch);
        lemma_index_in_page(q, 0, page_len);
        lemma_page_in_block(q, page_len);
        assert((first + q) * page_len == first * page_len + q * page_len) by (nonlinear_arith);
        assert(page_at(block, q, page_len) =~= page_at(wanted, first + q, page_len));
    }
    assert(rewritable(flash, patched.stage, first, page_len)) by {
        assert forall|j: int, k: int|
            0 <= j < k < BLOCK_PAGES && #[trigger] page_at(patched.stage, j, page_len) != blank(
                page_len,
            ) && #[trigger] page_at(flash, first + k, page_len) != blank(
                page_len,
            ) implies exists|i: int|
            0 <= i <= j && #[trigger] page_at(flash, first + i, page_len) != blank(page_len) by {
            assert(page_at(block, j, page_len) != blank(page_len));
        }
    }
    assert(rewriting(flash, flash, patched.stage, first, 0, page_len));
    assert(first % 16 == 0);
    lemma_stage_writes(patched, flash, flash, 16);
    let end = driven(model, flash, 32);
    lemma_block_restored(end.flash, flash, patched.stage, wanted, first, page_len);
}

/// Writing an identifier changes exactly its bytes in flash: the rest of the
/// erase block that had to be rewritten with it is put back as it was.
#[verifier::rlimit(40)]
pub proof fn law_identifier_write_changes_only_its_bytes(
    model: UdsModel,
    request: Seq<u8>,
    len: int,
    flash: Seq<u8>,
)
    requires
        model.wf(),
        model.buffer is None,
        model.unlocked(),
        asks_identifier_write(model, request, len),
        identifier_rewritable(model, request, len, flash),
    ensures
        ({
            let did = be_u16(request, 1);
            let end = routine_run(model, request, len, flash, 32);
            let pending = write_at(
                request,
                0,
                negative(SID_WRITE_DATA_BY_IDENTIFIER, NRC_RESPONSE_PENDING),
            );
            &&& end.flash == write_at(
                flash,
                identifier_at(model, did),
                identifier_patch(request, len),
            )
            &&& end.model.wf()
            &&& end.model.limits == model.limits
            &&& end.model.vars.job is Idle
            &&& end.model.buffer is None
            &&& end.model.page_buffer is Some
            &&& end.action == transmit(
                pending,
                seq![positive(SID_WRITE_DATA_BY_IDENTIFIER)] + be_bytes_u16(did),
            )
        }),
{
    let did = be_u16(request, 1);
    let at = identifier_at(model, did);
    let patch = identifier_patch(request, len);
    let (asked, answer) = model.message_received(request, len, true);
    lemma_message_received_wf(model, request, len, true);
    let pending = write_at(
        request,
        0,
        negative(SID_WRITE_DATA_BY_IDENTIFIER, NRC_RESPONSE_PENDING),
    );
    lemma_block_start(at, model.limits.page_len as int);
    assert(patch =~= asked.patch.take(asked.vars.patch_len as int));
    lemma_rewrite_driven(UdsModel { buffer: Some(pending), ..asked }, flash, at, patch);
}

/// A request, and the one flash operation that answers it if there is one.
pub open spec fn answered(model: UdsModel, request: Seq<u8>, len: int, flash: Seq<u8>) -> Scene {
    let (asked, action) = model.message_received(request, len, true);
    worked(Scene { model: asked, action, flash }, 1)
}

/// What the tester gets to see of an identifier that lives in flash: an
/// address most significant byte first, a record as it is.
pub open spec fn identifier_shown(did: u16, bytes: Seq<u8>) -> Seq<u8> {
    if did == DID_KERNEL_START_ADDRESS {
        bytes.reverse()
    } else {
        bytes
    }
}

/// Is this a request to read an identifier that lives in flash, all in one
/// page, with a buffer to answer it in?
pub open spec fn asks_identifier_read(model: UdsModel, request: Seq<u8>, len: int) -> bool {
    let did = be_u16(request, 1);
    let size = identifier_len(did);
    &&& 3 <= len <= request.len()
    &&& request[0] == SID_READ_DATA_BY_IDENTIFIER
    &&& did == DID_KERNEL_START_ADDRESS || DID_ATTRIBUTE_BASE <= did <= DID_ATTRIBUTE_LAST
    &&& identifier_at(model, did) % (model.limits.page_len as int) + size
        <= model.limits.page_len
    &&& 3 + size <= request.len()
}

/// Reading an identifier answers with its bytes in flash, locked or not.
pub proof fn law_identifier_read_shows_its_bytes(
    model: UdsModel,
    request: Seq<u8>,
    len: int,
    flash: Seq<u8>,
)
    requires
        model.wf(),
        model.buffer is None,
        asks_identifier_read(model, request, len),
        flash.len() as int % (model.limits.page_len as int) == 0,
        identifier_at(model, be_u16(request, 1)) + identifier_len(be_u16(request, 1))
            <= flash.len(),
    ensures
        ({
            let did = be_u16(request, 1);
            let at = identifier_at(model, did);
            let size = identifier_len(did);
            let end = answered(model, request, len, flash);
            &&& end.flash == flash
            &&& end.action == transmit(
                request,
                identifier_value(did, identifier_shown(did, flash.subrange(at, at + size))),
            )
        }),
{
    let did = be_u16(request, 1);
    let at = identifier_at(model, did);
    let size = identifier_len(did);
    let page_len = model.limits.page_len as int;
    let page = page_at(flash, at / page_len, page_len);
    lemma_page_part(flash, at, size, page_len);
    let (asked, action) = model.message_received(request, len, true);
    assert(action == Action::ReadPage {
        page_number: (at / page_len) as usize,
        page: model.page_buffer->0,
    });
    let (answered, answer) = asked.read_complete(page);
    assert(worked(Scene { model: asked, action, flash }, 1) == worked(
        Scene { model: answered, action: answer, flash },
        0,
    ));
}

/// An identifier whose block can be rewritten lies in flash.
proof fn lemma_identifier_in_flash(model: UdsModel, request: Seq<u8>, len: int, flash: Seq<u8>)
    requires
        model.wf(),
        model.buffer is None,
        identifier_rewritable(model, request, len, flash),
    ensures
        identifier_patch(request, len).len() == identifier_len(be_u16(request, 1)),
        identifier_at(model, be_u16(request, 1)) + identifier_len(be_u16(request, 1))
            <= flash.len(),
{
    let page_len = model.limits.page_len as int;
    let first = model.limits.block_first_page(identifier_at(model, be_u16(request, 1)));
    assert((first + 16) * page_len == first * page_len + 16 * page_len) by (nonlinear_arith);
}

/// What is written to an identifier is what reading it gives back: the
/// address as the tester sent it, the record with zeros after the data.
pub proof fn law_identifier_read_gives_back_the_write(
    model: UdsModel,
    request: Seq<u8>,
    len: int,
    flash: Seq<u8>,
    question: Seq<u8>,
    question_len: int,
)
    requires
        model.wf(),
        model.buffer is None,
        model.unlocked(),
        asks_identifier_write(model, request, len),
        identifier_rewritable(model, request, len, flash),
        flash.len() as int % (model.limits.page_len as int) == 0,
        asks_identifier_read(model, question, question_len),
        be_u16(question, 1) == be_u16(request, 1),
    ensures
        ({
            let did = be_u16(request, 1);
            let written = routine_run(model, request, len, flash, 32);
            let read = answered(written.model, question, question_len, written.flash);
            read.action == transmit(
                question,
                identifier_value(
                    did,
                    if did == DID_KERNEL_START_ADDRESS {
                        be_bytes(be_u32(request, 3))
                    } else {
                        padded(request.subrange(3, len))
                    },
                ),
            )
        }),
{
    let did = be_u16(request, 1);
    let at = identifier_at(model, did);
    let patch = identifier_patch(request, len);
    lemma_identifier_in_flash(model, request, len, flash);
    law_identifier_write_changes_only_its_bytes(model, request, len, flash);
    let written = routine_run(model, request, len, flash, 32);
    law_identifier_read_shows_its_bytes(written.model, question, question_len, written.flash);
    assert(written.flash.subrange(at, at + patch.len()) =~= patch);
    law_le_reversed_is_be(be_u32(request, 3));
}

// -- Transfers ------------------------------------------------------------

/// A request, the one flash operation that answers it if there is one, and
/// the answer going out.
pub open spec fn exchanged(model: UdsModel, request: Seq<u8>, len: int, flash: Seq<u8>) -> Scene {
    let end = answered(model, request, len, flash);
    match end.action {
        Action::Transmit { buffer, len: _ } => Scene {
            model: end.model.message_transmitted(buffer).0,
            ..end
        },
        _ => end,
    }
}

/// Is every byte of this range erased?
pub open spec fn is_blank(flash: Seq<u8>, from: int, to: int) -> bool {
    forall|i: int| from <= i < to ==> flash[i] == 0xFF
}

/// The end of the page that holds the last byte before `end`.
pub open spec fn page_end(end: int, page_len: int) -> int {
    (end + page_len - 1) / page_len * page_len
}

/// A page boundary at or above a point is at or above the end of its page.
proof fn lemma_page_end(address: int, size: int, page_len: int)
    requires
        0 <= address,
        0 < size <= page_len,
        address % page_len == 0,
    ensures
        address / page_len * page_len == address,
        page_end(address + size, page_len) == address + page_len,
{
    let page = address / page_len;
    lemma_split(address, page_len);
    lemma_round_up(address + size, page_len);
    lemma_join(address + size - 1, page, size - 1, page_len);
    lemma_start_order(page, page, page_len);
}

/// One downloaded block into erased flash: the data is at the transfer's
/// address, the rest of its page stays erased, nothing else changes, and the
/// transfer has moved on by exactly the block.
#[verifier::rlimit(40)]
pub proof fn law_download_block_lands(
    model: UdsModel,
    request: Seq<u8>,
    len: int,
    flash: Seq<u8>,
)
    requires
        model.wf(),
        model.buffer is None,
        model.takes_block(request, len),
        len <= request.len(),
        len - 2 <= model.limits.page_len,
        model.vars.transfer_address as int % (model.limits.page_len as int) == 0,
        covers(flash, model.limits),
        is_blank(
            flash,
            model.vars.transfer_address as int,
            model.vars.transfer_address + model.limits.page_len,
        ),
    ensures
        ({
            let data = request.subrange(2, len);
            let end = exchanged(model, request, len, flash);
            &&& end.flash == write_at(flash, model.vars.transfer_address as int, data)
            &&& end.model.wf()
            &&& end.model.buffer is None
            &&& end.model.limits == model.limits
            &&& end.model.vars == (Vars {
                job: Job::Idle,
                transfer_address: (model.vars.transfer_address + data.len()) as u32,
                transfer_remaining: (model.vars.transfer_remaining - data.len()) as u32,
                next_block_sequence: model.vars.next_block_sequence.wrapping_add(1),
                write_len: data.len() as usize,
                ..model.vars
            })
            &&& end.action == transmit(
                request,
                seq![positive(SID_TRANSFER_DATA), model.vars.next_block_sequence],
            )
        }),
{
    let address = model.vars.transfer_address as int;
    let page_len = model.limits.page_len as int;
    let data = request.subrange(2, len);
    let (asked, action) = model.message_received(request, len, true);
    lemma_message_received_wf(model, request, len, true);
    lemma_page_end(address, data.len() as int, page_len);
    lemma_page_part(flash, address, data.len() as int, page_len);
    let page = page_of(data, page_len as nat);
    assert(page_at(flash, address / page_len, page_len) =~= blank(page_len));
    let (answered, answer) = asked.write_complete(page, true);
    assert(answered.vars.next_block_sequence.wrapping_sub(1) == model.vars.next_block_sequence);
    let after = written(flash, address / page_len, page);
    assert(after =~= write_at(flash, address, data));
    assert(worked(Scene { model: asked, action, flash }, 1) == worked(
        Scene { model: answered, action: answer, flash: after },
        0,
    ));
}

/// The server's state after the blocks of `requests`, and the flash.
pub open spec fn downloaded(
    model: UdsModel,
    flash: Seq<u8>,
    requests: Seq<(Seq<u8>, int)>,
) -> (UdsModel, Seq<u8>)
    decreases requests.len(),
{
    if requests.len() == 0 {
        (model, flash)
    } else {
        let (request, len) = requests.first();
        let end = exchanged(model, request, len, flash);
        downloaded(end.model, end.flash, requests.drop_first())
    }
}

/// Do the requests carry `image`, in order, a page at a time, with sequence
/// numbers from `sequence` on?
pub open spec fn carries(
    requests: Seq<(Seq<u8>, int)>,
    image: Seq<u8>,
    sequence: u8,
    page_len: int,
) -> bool
    decreases requests.len(),
{
    let size = least(image.len() as int, page_len);
    let (request, len) = requests.first();
    if requests.len() == 0 {
        image.len() == 0
    } else {
        &&& image.len() > 0
        &&& len == 2 + size
        &&& len <= request.len()
        &&& request[0] == SID_TRANSFER_DATA
        &&& request[1] == sequence
        &&& request.subrange(2, len) == image.take(size)
        &&& carries(
            requests.drop_first(),
            image.skip(size),
            sequence.wrapping_add(1),
            page_len,
        )
    }
}

/// A whole download into erased flash puts exactly the image there and leaves
/// nothing of the transfer outstanding.
#[verifier::rlimit(60)]
pub proof fn law_download_puts_the_image_in_flash(
    model: UdsModel,
    flash: Seq<u8>,
    requests: Seq<(Seq<u8>, int)>,
    image: Seq<u8>,
)
    requires
        model.wf(),
        model.buffer is None,
        model.vars.transfer is Download,
        model.limits.page_len <= TRANSFER_BLOCK,
        model.vars.transfer_address as int % (model.limits.page_len as int) == 0,
        model.vars.transfer_remaining == image.len(),
        covers(flash, model.limits),
        is_blank(
            flash,
            model.vars.transfer_address as int,
            page_end(
                model.vars.transfer_address + image.len(),
                model.limits.page_len as int,
            ),
        ),
        carries(
            requests,
            image,
            model.vars.next_block_sequence,
            model.limits.page_len as int,
        ),
    ensures
        ({
            let (after, result) = downloaded(model, flash, requests);
            &&& result == write_at(flash, model.vars.transfer_address as int, image)
            &&& after.wf()
            &&& after.buffer is None
            &&& after.limits == model.limits
            &&& after.vars.transfer is Download
            &&& after.vars.transfer_remaining == 0
        }),
    decreases requests.len(),
{
    let address = model.vars.transfer_address as int;
    let page_len = model.limits.page_len as int;
    if requests.len() == 0 {
        assert(flash =~= write_at(flash, address, image));
    } else {
        let size = least(image.len() as int, page_len);
        let (request, len) = requests.first();
        assert(request.subrange(2, len).len() == size);
        lemma_page_end(address, size, page_len);
        let end_of_image = page_end(address + image.len(), page_len);
        assert(address + page_len <= end_of_image && end_of_image == page_end(
            address + page_len + (image.len() - size),
            page_len,
        ) || image.len() == size) by {
            if image.len() > size {
                assert(size == page_len);
                lemma_page_end_monotone(address + page_len, address + image.len(), page_len);
                lemma_page_end(address, page_len, page_len);
            }
        }
        law_download_block_lands(model, request, len, flash);
        let next = exchanged(model, request, len, flash);
        let rest = image.skip(size);
        if rest.len() > 0 {
            lemma_next_page_aligned(address, page_len);
        } else {
            // Nothing is left, so where the transfer stands does not matter.
            assert(carries(
                requests.drop_first(),
                rest,
                model.vars.next_block_sequence.wrapping_add(1),
                page_len,
            ));
            assert(requests.drop_first().len() == 0);
            assert(downloaded(next.model, next.flash, requests.drop_first()) == (
                next.model,
                next.flash,
            ));
            assert(image.take(size) =~= image);
        }
        if rest.len() > 0 {
            lemma_page_end_covered(address + image.len(), flash.len() as int, page_len);
            assert(is_blank(next.flash, address + size, end_of_image));
            law_download_puts_the_image_in_flash(
                next.model,
                next.flash,
                requests.drop_first(),
                rest,
            );
            assert(write_at(write_at(flash, address, image.take(size)), address + size, rest)
                =~= write_at(flash, address, image));
        }
    }
}

/// Page ends are in order.
proof fn lemma_page_end_monotone(a: int, b: int, page_len: int)
    requires
        0 <= a <= b,
        0 < page_len,
    ensures
        page_end(a, page_len) <= page_end(b, page_len),
{
    lemma_page_order(a + page_len - 1, b + page_len - 1, page_len);
    lemma_start_order(
        (a + page_len - 1) / page_len,
        (b + page_len - 1) / page_len,
        page_len,
    );
}

/// The pages of a range in flash are in flash.
proof fn lemma_page_end_covered(end: int, len: int, page_len: int)
    requires
        0 <= end <= len,
        0 < page_len,
        len % page_len == 0,
    ensures
        page_end(end, page_len) <= len,
{
    if end > 0 {
        lemma_round_up(end, page_len);
        lemma_page_inside(end - 1, len, page_len);
        lemma_start_order((end - 1) / page_len, (end - 1) / page_len, page_len);
    } else {
        lemma_join(page_len - 1, 0, page_len - 1, page_len);
    }
}

/// A page on from a page boundary is a page boundary.
proof fn lemma_next_page_aligned(address: int, page_len: int)
    requires
        0 <= address,
        0 < page_len,
        address % page_len == 0,
    ensures
        (address + page_len) % page_len == 0,
{
    let page = address / page_len;
    lemma_split(address, page_len);
    lemma_start_order(page, page, page_len);
    lemma_join(address + page_len, page + 1, 0, page_len);
}

/// One uploaded block is what flash holds at the transfer's address, and the
/// transfer moves on by exactly the block.
#[verifier::rlimit(40)]
pub proof fn law_upload_block_returns_flash(
    model: UdsModel,
    request: Seq<u8>,
    len: int,
    flash: Seq<u8>,
)
    requires
        model.wf(),
        model.buffer is None,
        model.vars.transfer is Upload,
        model.vars.transfer_remaining > 0,
        2 <= len <= request.len(),
        2 + model.upload_len() <= request.len(),
        request[0] == SID_TRANSFER_DATA,
        request[1] == model.vars.next_block_sequence,
        covers(flash, model.limits),
    ensures
        ({
            let address = model.vars.transfer_address as int;
            let size = model.upload_len();
            let end = exchanged(model, request, len, flash);
            &&& 0 < size <= model.vars.transfer_remaining
            &&& end.flash == flash
            &&& end.model.wf()
            &&& end.model.buffer is None
            &&& end.model.limits == model.limits
            &&& end.model.vars == (Vars {
                job: Job::Idle,
                transfer_address: (address + size) as u32,
                transfer_remaining: (model.vars.transfer_remaining - size) as u32,
                next_block_sequence: model.vars.next_block_sequence.wrapping_add(1),
                prev_block_address: model.vars.transfer_address,
                prev_block_len: size as usize,
                ..model.vars
            })
            &&& end.action == transmit(
                request,
                seq![positive(SID_TRANSFER_DATA), model.vars.next_block_sequence]
                    + flash.subrange(address, address + size),
            )
        }),
{
    let address = model.vars.transfer_address as int;
    let page_len = model.limits.page_len as int;
    let size = model.upload_len();
    let (asked, action) = model.message_received(request, len, true);
    lemma_message_received_wf(model, request, len, true);
    lemma_split(address, page_len);
    lemma_page_part(flash, address, size, page_len);
    let page = page_at(flash, address / page_len, page_len);
    assert(action == Action::ReadPage {
        page_number: (address / page_len) as usize,
        page: model.page_buffer->0,
    });
    let (answered, answer) = asked.read_complete(page);
    assert(worked(Scene { model: asked, action, flash }, 1) == worked(
        Scene { model: answered, action: answer, flash },
        0,
    ));
}

/// The data of an answer to `TransferData`.
pub open spec fn block_data(action: Action<Seq<u8>>) -> Seq<u8> {
    match action {
        Action::Transmit { buffer, len } => buffer.subrange(2, len as int),
        _ => Seq::empty(),
    }
}

/// All the data the answers to `requests` carry.
pub open spec fn uploaded(
    model: UdsModel,
    flash: Seq<u8>,
    requests: Seq<(Seq<u8>, int)>,
) -> Seq<u8>
    decreases requests.len(),
{
    if requests.len() == 0 {
        Seq::empty()
    } else {
        let (request, len) = requests.first();
        let end = exchanged(model, request, len, flash);
        block_data(end.action) + uploaded(end.model, end.flash, requests.drop_first())
    }
}

/// Do the requests ask for one block after the other, from `sequence` on,
/// each in a buffer that a full block fits in, until `remaining` bytes from
/// `address` on have been handed over?
pub open spec fn fetches(
    requests: Seq<(Seq<u8>, int)>,
    address: int,
    remaining: int,
    sequence: u8,
    page_len: int,
) -> bool
    decreases requests.len(),
{
    let size = least(least(page_len - address % page_len, remaining), TRANSFER_BLOCK as int);
    let (request, len) = requests.first();
    if requests.len() == 0 {
        remaining == 0
    } else {
        &&& remaining > 0
        &&& 2 <= len <= request.len()
        &&& 2 + TRANSFER_BLOCK <= request.len()
        &&& request[0] == SID_TRANSFER_DATA
        &&& request[1] == sequence
        &&& fetches(
            requests.drop_first(),
            address + size,
            remaining - size,
            sequence.wrapping_add(1),
            page_len,
        )
    }
}

/// A whole upload hands over exactly the flash that was asked for, wherever
/// it starts and however it falls on pages.
pub proof fn law_upload_returns_the_range(
    model: UdsModel,
    flash: Seq<u8>,
    requests: Seq<(Seq<u8>, int)>,
)
    requires
        model.wf(),
        model.buffer is None,
        model.vars.transfer is Upload,
        covers(flash, model.limits),
        fetches(
            requests,
            model.vars.transfer_address as int,
            model.vars.transfer_remaining as int,
            model.vars.next_block_sequence,
            model.limits.page_len as int,
        ),
    ensures
        uploaded(model, flash, requests) == flash.subrange(
            model.vars.transfer_address as int,
            model.vars.transfer_address + model.vars.transfer_remaining,
        ),
    decreases requests.len(),
{
    let address = model.vars.transfer_address as int;
    let remaining = model.vars.transfer_remaining as int;
    if requests.len() == 0 {
        assert(flash.subrange(address, address) =~= Seq::<u8>::empty());
    } else {
        let (request, len) = requests.first();
        let size = model.upload_len();
        law_upload_block_returns_flash(model, request, len, flash);
        let next = exchanged(model, request, len, flash);
        law_upload_returns_the_range(next.model, flash, requests.drop_first());
        assert(block_data(next.action) =~= flash.subrange(address, address + size));
        assert(flash.subrange(address, address + size) + flash.subrange(
            address + size,
            address + remaining,
        ) =~= flash.subrange(address, address + remaining));
    }
}

/// What was downloaded is what uploading the same range gives back.
pub proof fn law_upload_gives_back_the_download(
    model: UdsModel,
    flash: Seq<u8>,
    requests: Seq<(Seq<u8>, int)>,
    image: Seq<u8>,
    reader: UdsModel,
    questions: Seq<(Seq<u8>, int)>,
)
    requires
        model.wf(),
        model.buffer is None,
        model.vars.transfer is Download,
        model.limits.page_len <= TRANSFER_BLOCK,
        model.vars.transfer_address as int % (model.limits.page_len as int) == 0,
        model.vars.transfer_remaining == image.len(),
        covers(flash, model.limits),
        is_blank(
            flash,
            model.vars.transfer_address as int,
            page_end(
                model.vars.transfer_address + image.len(),
                model.limits.page_len as int,
            ),
        ),
        carries(
            requests,
            image,
            model.vars.next_block_sequence,
            model.limits.page_len as int,
        ),
        reader.wf(),
        reader.buffer is None,
        reader.limits == model.limits,
        reader.vars.transfer is Upload,
        reader.vars.transfer_address == model.vars.transfer_address,
        reader.vars.transfer_remaining == image.len(),
        fetches(
            questions,
            reader.vars.transfer_address as int,
            reader.vars.transfer_remaining as int,
            reader.vars.next_block_sequence,
            reader.limits.page_len as int,
        ),
    ensures
        uploaded(reader, downloaded(model, flash, requests).1, questions) == image,
{
    law_download_puts_the_image_in_flash(model, flash, requests, image);
    let result = downloaded(model, flash, requests).1;
    law_upload_returns_the_range(reader, result, questions);
    let address = model.vars.transfer_address as int;
    assert(result.subrange(address, address + image.len()) =~= image);
}

/// A tester that repeats the block it last sent, because the answer was lost,
/// is answered again and nothing else happens.
pub proof fn law_repeated_download_block_is_acknowledged(
    model: UdsModel,
    request: Seq<u8>,
    len: int,
)
    requires
        model.vars.transfer is Download,
        2 <= len <= request.len(),
        request[0] == SID_TRANSFER_DATA,
        request[1] == model.vars.next_block_sequence.wrapping_sub(1),
    ensures
        model.message_received(request, len, true) == (
            model,
            transmit(request, seq![positive(SID_TRANSFER_DATA), request[1]]),
        ),
{
}

/// A tester that asks again for the block it was last handed, because the
/// answer was lost, gets the same answer, its number included, and the
/// transfer stands where it stood.
#[verifier::rlimit(40)]
pub proof fn law_repeated_upload_block_is_the_same(
    model: UdsModel,
    request: Seq<u8>,
    len: int,
    again: Seq<u8>,
    again_len: int,
    flash: Seq<u8>,
)
    requires
        model.wf(),
        model.buffer is None,
        model.vars.transfer is Upload,
        model.vars.transfer_remaining > 0,
        2 <= len <= request.len(),
        2 + model.upload_len() <= request.len(),
        request[0] == SID_TRANSFER_DATA,
        request[1] == model.vars.next_block_sequence,
        2 <= again_len <= again.len(),
        2 + model.upload_len() <= again.len(),
        again[0] == SID_TRANSFER_DATA,
        again[1] == request[1],
        covers(flash, model.limits),
    ensures
        ({
            let first = exchanged(model, request, len, flash);
            let second = exchanged(first.model, again, again_len, flash);
            let answer = seq![positive(SID_TRANSFER_DATA), request[1]] + block_data(first.action);
            &&& first.action == transmit(request, answer)
            &&& second.action == transmit(again, answer)
            &&& second.model.vars == first.model.vars
            &&& second.flash == flash
        }),
{
    let address = model.vars.transfer_address as int;
    let size = model.upload_len();
    let page_len = model.limits.page_len as int;
    law_upload_block_returns_flash(model, request, len, flash);
    let first = exchanged(model, request, len, flash);
    assert(block_data(first.action) =~= flash.subrange(address, address + size));
    lemma_split(address, page_len);
    lemma_page_part(flash, address, size, page_len);
    let page = page_at(flash, address / page_len, page_len);
    let (asked, action) = first.model.message_received(again, again_len, true);
    assert(action == Action::ReadPage {
        page_number: (address / page_len) as usize,
        page: first.model.page_buffer->0,
    });
    let (answered, answer) = asked.read_complete(page);
    assert(worked(Scene { model: asked, action, flash }, 1) == worked(
        Scene { model: answered, action: answer, flash },
        0,
    ));
}

/// A block that could not be read was not handed out: whether the flash would
/// not start the read or the block does not fit, the transfer stands where it
/// stood, and the block last handed out is still the one to repeat.
pub proof fn law_failed_read_leaves_the_transfer(
    model: UdsModel,
    request: Seq<u8>,
    len: int,
    page: Seq<u8>,
)
    requires
        model.wf(),
        model.buffer is None,
        model.vars.job is Idle,
        model.vars.transfer is Upload,
        2 <= len <= request.len(),
        request[0] == SID_TRANSFER_DATA,
        model.message_received(request, len, true).1 is ReadPage,
        page.len() == model.limits.page_len,
    ensures
        ({
            let (asked, _) = model.message_received(request, len, true);
            let (refused, answer) = asked.read_refused(page);
            let (failed, result) = asked.read_complete(page);
            let failure = transmit(
                request,
                negative(SID_TRANSFER_DATA, NRC_GENERAL_PROGRAMMING_FAILURE),
            );
            &&& answer == failure
            &&& refused.vars == model.vars
            &&& result == failure ==> failed.vars == model.vars
        }),
{
    let (asked, _) = model.message_received(request, len, true);
    let (_, result) = asked.read_complete(page);
    let failure = transmit(
        request,
        negative(SID_TRANSFER_DATA, NRC_GENERAL_PROGRAMMING_FAILURE),
    );
    if result == failure {
        assert(result->Transmit_buffer[0] == failure->Transmit_buffer[0]);
    }
}

} // verus!

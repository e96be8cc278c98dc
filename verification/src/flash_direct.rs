//! Adapter between page-sized flash clients and the SAMV71 flash controller.
//!
//! The controller's pages are the same size as the bootloader's, so no mapping
//! is needed: a read is a copy out of memory-mapped flash, and a write lends
//! the controller a page of its own while the client's page waits.

use vstd::prelude::*;

use crate::actions::held;
use crate::bytes::copy_into;
use crate::error::ErrorCode;

verus! {

/// Bytes in a page of the controller.
pub const PAGE_SIZE: usize = 512;
/// Pages in flash.
pub const PAGE_COUNT: usize = 4096;

/// The adapter.
pub struct Sam71FlashDirect {
    efc_page: Option<Vec<u8>>,
    client_page: Option<Vec<u8>>,
}

/// Which pages the adapter holds.
#[verifier::ext_equal]
pub struct DirectModel {
    /// The controller's page, absent while the controller has it.
    pub efc_page: Option<Seq<u8>>,
    /// The client's page, present while a write is in progress.
    pub client_page: Option<Seq<u8>>,
}

impl DirectModel {
    pub open spec fn wf(self) -> bool {
        &&& self.efc_page matches Some(page) ==> page.len() == PAGE_SIZE
        &&& self.client_page matches Some(page) ==> page.len() == PAGE_SIZE
    }
}

impl View for Sam71FlashDirect {
    type V = DirectModel;

    closed spec fn view(&self) -> DirectModel {
        DirectModel { efc_page: held(self.efc_page), client_page: held(self.client_page) }
    }
}

/// Page `page_number` of the flash.
pub open spec fn flash_page(flash: Seq<u8>, page_number: int) -> Seq<u8> {
    flash.subrange(page_number * PAGE_SIZE, page_number * PAGE_SIZE + PAGE_SIZE)
}

impl Sam71FlashDirect {
    pub fn new(efc_page: Vec<u8>) -> (adapter: Sam71FlashDirect)
        requires
            efc_page@.len() == PAGE_SIZE,
        ensures
            adapter@ == (DirectModel { efc_page: Some(efc_page@), client_page: None }),
            adapter@.wf(),
    {
        Sam71FlashDirect { efc_page: Some(efc_page), client_page: None }
    }

    /// Read a page. The read is over when this returns: the page handed back
    /// is the completed one.
    pub fn read_page(&self, page_number: usize, page: Vec<u8>, flash: &[u8]) -> (result: Result<
        Vec<u8>,
        (ErrorCode, Vec<u8>),
    >)
        requires
            page@.len() == PAGE_SIZE,
            flash@.len() == PAGE_COUNT * PAGE_SIZE,
        ensures
            match result {
                Ok(read) => page_number < PAGE_COUNT && read@ == flash_page(
                    flash@,
                    page_number as int,
                ),
                Err((error, back)) => page_number >= PAGE_COUNT && error == ErrorCode::INVAL
                    && back == page,
            },
    {
        if page_number >= PAGE_COUNT {
            return Err((ErrorCode::INVAL, page));
        }
        let at: usize = page_number * PAGE_SIZE;
        let mut page = page;
        copy_into(&mut page, 0, vstd::slice::slice_subrange(flash, at, at + PAGE_SIZE));
        assert(page@ =~= flash_page(flash@, page_number as int));
        Ok(page)
    }

    /// Take a page to be written. Gives the page to hand to the controller,
    /// with the client's bytes in it.
    pub fn write_page(&mut self, page: Vec<u8>) -> (result: Result<Vec<u8>, (ErrorCode, Vec<u8>)>)
        requires
            old(self)@.wf(),
            page@.len() == PAGE_SIZE,
        ensures
            match result {
                Ok(efc_page) => {
                    &&& old(self)@.efc_page is Some
                    &&& efc_page@ == page@
                    &&& final(self)@ == (DirectModel {
                        efc_page: None,
                        client_page: Some(page@),
                    })
                },
                Err((error, back)) => {
                    &&& old(self)@.efc_page is None
                    &&& error == ErrorCode::BUSY
                    &&& back == page
                    &&& final(self)@ == (DirectModel { efc_page: None, client_page: None })
                },
            },
            final(self)@.wf(),
    {
        match self.efc_page.take() {
            None => {
                self.client_page = None;
                Err((ErrorCode::BUSY, page))
            },
            Some(efc_page) => {
                let mut efc_page = efc_page;
                copy_into(&mut efc_page, 0, page.as_slice());
                assert(efc_page@ =~= page@);
                self.client_page = Some(page);
                Ok(efc_page)
            },
        }
    }

    /// The controller did not start a write: what to hand the client.
    pub fn write_refused(&mut self, efc_page: Vec<u8>) -> (result: (ErrorCode, Vec<u8>))
        requires
            old(self)@.wf(),
            old(self)@.client_page is Some,
            efc_page@.len() == PAGE_SIZE,
        ensures
            result.0 == ErrorCode::FAIL,
            result.1@ == old(self)@.client_page->0,
            final(self)@ == (DirectModel { efc_page: Some(efc_page@), client_page: None }),
            final(self)@.wf(),
    {
        self.efc_page = Some(efc_page);
        match self.client_page.take() {
            Some(page) => (ErrorCode::FAIL, page),
            None => (ErrorCode::FAIL, Vec::new()),
        }
    }

    /// The controller is done with a write: the page to complete the client's
    /// write with, if there is one.
    pub fn write_complete(&mut self, efc_page: Vec<u8>) -> (page: Option<Vec<u8>>)
        requires
            old(self)@.wf(),
            efc_page@.len() == PAGE_SIZE,
        ensures
            held(page) == old(self)@.client_page,
            final(self)@ == (DirectModel { efc_page: Some(efc_page@), client_page: None }),
            final(self)@.wf(),
    {
        self.efc_page = Some(efc_page);
        self.client_page.take()
    }
}

/// A page of the flash is the 512 bytes from 512 times its number on.
pub proof fn law_page_is_where_its_number_says(flash: Seq<u8>, page_number: int, i: int)
    requires
        0 <= page_number < 4096,
        flash.len() == 0x20_0000,
        0 <= i < 512,
    ensures
        flash_page(flash, page_number).len() == 512,
        flash_page(flash, page_number)[i] == flash[512 * page_number + i],
{
}

} // verus!

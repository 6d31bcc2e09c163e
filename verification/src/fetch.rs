//! Filling a memory image from a live target, in rounds: a walk over the image names the
//! reads that it could not place, whoever holds the target performs them, and the answers
//! are recorded in the image before the next walk.
//!
//! This module decides which reads to ask for, how to widen them to whole pages, and when a
//! failed read is worth another try. Performing the reads is not its business.

use vstd::prelude::*;
use crate::image::{AccessError, ImageView, lemma_recorded_is_known, MemoryImage, RegionView};
use crate::walker::{GapCause, ResolutionGap};

verus! {

/// A read to perform on the target.
#[derive(Clone, Copy, PartialEq, Eq, Debug, Structural)]
pub struct ReadRequest {
    pub addr: u64,
    pub len: u64,
}

/// Reads are widened to pages of this size.
pub const PAGE_SIZE: u64 = 0x1000;

/// A failed read is tried at most this often.
pub const MAX_READ_ATTEMPTS: u32 = 3;

/// The read that would close `gap`: the span of a read that went out of range because the
/// image knows nothing of it. Spans of no bytes and spans that leave the address space cannot
/// be read.
pub open spec fn wanted(image: ImageView, gap: ResolutionGap) -> Option<ReadRequest> {
    match gap.cause {
        GapCause::Access(AccessError::OutOfRange { addr, len }) => if len > 0 && addr + len
            <= 0x1_0000_0000_0000_0000 && !image.knows(addr, len as nat) {
            Some(ReadRequest { addr, len })
        } else {
            None
        },
        _ => None,
    }
}

/// The reads that would close the first `n` of `gaps`, in their order.
pub open spec fn pending_upto(image: ImageView, gaps: Seq<ResolutionGap>, n: nat) -> Seq<
    ReadRequest,
>
    decreases n,
{
    if n == 0 {
        Seq::empty()
    } else {
        let earlier = pending_upto(image, gaps, (n - 1) as nat);
        match wanted(image, gaps[n - 1]) {
            Some(request) => earlier.push(request),
            None => earlier,
        }
    }
}

/// The reads that would close `gaps`.
pub open spec fn pending(image: ImageView, gaps: Seq<ResolutionGap>) -> Seq<ReadRequest> {
    pending_upto(image, gaps, gaps.len())
}

fn wanted_read(image: &MemoryImage, gap: &ResolutionGap) -> (request: Option<ReadRequest>)
    ensures
        request == wanted(image@, *gap),
{
    match gap.cause {
        GapCause::Access(AccessError::OutOfRange { addr, len }) => {
            if len > 0 && len - 1 <= u64::MAX - addr && !image.knows(addr, len) {
                Some(ReadRequest { addr, len })
            } else {
                None
            }
        },
        _ => None,
    }
}

/// The reads to perform before the next walk: one for each gap that the image cannot place.
/// Where no read is pending, another walk would find nothing new.
pub fn pending_reads(image: &MemoryImage, gaps: &Vec<ResolutionGap>) -> (requests: Vec<
    ReadRequest,
>)
    ensures
        requests@ == pending(image@, gaps@),
{
    let mut requests: Vec<ReadRequest> = Vec::new();
    let mut i: usize = 0;
    while i < gaps.len()
        invariant
            i <= gaps@.len(),
            requests@ == pending_upto(image@, gaps@, i as nat),
        decreases gaps@.len() - i,
    {
        match wanted_read(image, &gaps[i]) {
            Some(request) => {
                requests.push(request);
            },
            None => {},
        }
        i += 1;
    }
    requests
}

/// The whole pages that hold a request, as one request. A request that leaves the address
/// space, or whose pages are the whole address space, stays as it is.
pub open spec fn page_cover(request: ReadRequest) -> ReadRequest {
    let page = PAGE_SIZE as int;
    let end = request.addr + request.len;
    let start = request.addr as int - request.addr as int % page;
    let rounded = if end % page == 0 {
        end
    } else {
        end - end % page + page
    };
    if end > 0x1_0000_0000_0000_0000 || rounded - start > u64::MAX {
        request
    } else {
        ReadRequest { addr: start as u64, len: (rounded - start) as u64 }
    }
}

/// Widens a request to whole pages.
pub fn widen(request: ReadRequest) -> (wide: ReadRequest)
    ensures
        wide == page_cover(request),
        wide.addr <= request.addr,
        request.addr + request.len <= wide.addr + wide.len,
{
    let end: u128 = request.addr as u128 + request.len as u128;
    let start: u128 = (request.addr - request.addr % PAGE_SIZE) as u128;
    let rounded: u128 = if end % (PAGE_SIZE as u128) == 0 {
        end
    } else {
        end - end % (PAGE_SIZE as u128) + PAGE_SIZE as u128
    };
    if end > 0x1_0000_0000_0000_0000 || rounded - start > u64::MAX as u128 {
        request
    } else {
        ReadRequest { addr: start as u64, len: (rounded - start) as u64 }
    }
}

/// Whether a read that failed with `error`, after `attempts` tries, is worth another try: a
/// refusal may pass, an address that is not mapped stays unmapped.
pub open spec fn retry_allowed(error: AccessError, attempts: u32) -> bool {
    match error {
        AccessError::Denied { .. } => attempts < MAX_READ_ATTEMPTS,
        AccessError::OutOfRange { .. } => false,
    }
}

pub fn should_retry(error: AccessError, attempts: u32) -> (again: bool)
    ensures
        again == retry_allowed(error, attempts),
{
    match error {
        AccessError::Denied { .. } => attempts < MAX_READ_ATTEMPTS,
        AccessError::OutOfRange { .. } => false,
    }
}

/// Records the answer to a request in the image: the bytes, or the failure.
pub fn record_answer(image: &mut MemoryImage, request: ReadRequest, answer: Result<
    Vec<u8>,
    AccessError,
>)
    ensures
        final(image)@ == old(image)@.with_region(answer_region(request, answer)),
{
    match answer {
        Ok(bytes) => image.record_bytes(request.addr, bytes),
        Err(AccessError::Denied { .. }) => image.record_fault(request.addr, request.len, true),
        Err(AccessError::OutOfRange { .. }) => image.record_fault(
            request.addr,
            request.len,
            false,
        ),
    }
}

/// The region that records the answer to a request.
pub open spec fn answer_region(request: ReadRequest, answer: Result<Vec<u8>, AccessError>)
    -> RegionView {
    match answer {
        Ok(bytes) => RegionView::Mapped { base: request.addr, bytes: bytes@ },
        Err(AccessError::Denied { .. }) => RegionView::Unreadable {
            base: request.addr,
            len: request.len,
            denied: true,
        },
        Err(AccessError::OutOfRange { .. }) => RegionView::Unreadable {
            base: request.addr,
            len: request.len,
            denied: false,
        },
    }
}

/// A request whose answer is recorded is asked for no more, whatever the answer was, provided
/// that a read that succeeded gave as many bytes as were asked for.
pub proof fn lemma_answered_is_settled(
    image: ImageView,
    request: ReadRequest,
    answer: Result<Vec<u8>, AccessError>,
    gap: ResolutionGap,
)
    requires
        wanted(image, gap) == Some(request),
        answer matches Ok(bytes) ==> bytes@.len() == request.len,
    ensures
        wanted(image.with_region(answer_region(request, answer)), gap) is None,
{
    lemma_recorded_is_known(
        image,
        answer_region(request, answer),
        request.addr,
        request.len as nat,
    );
}

} // verus!

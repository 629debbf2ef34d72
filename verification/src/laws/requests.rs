//! What the raster worker is asked for, and what it answers.

use crate::app::RenderKey;
use crate::layout::Single;
use crate::pdf::renderer::{
    spec_choose_page, spec_raster_size, spec_ready, Bitmap, PageChoice, QueueState, RenderError,
    RenderEvent, RenderKind, RenderRequest,
};
use vstd::prelude::*;

verus! {

/// Of a document with pages, the page that was asked for is rasterized, or the
/// last one where there are not so many. Of any other, none is.
pub proof fn law_page_choice(page: usize, total: i32)
    ensures
        match spec_choose_page(page, total) {
            Ok(choice) => {
                &&& total > 0
                &&& choice.page_count == total
                &&& page < total ==> choice.index == page
                &&& page >= total ==> choice.index + 1 == total
                &&& choice.pdfium_index == choice.index
            },
            Err(error) => {
                &&& total < 0 ==> error == RenderError::InvalidPageCount
                &&& total == 0 ==> error == RenderError::NoPages
                &&& total <= 0
            },
        },
{
}

/// A raster has the dimensions that were asked for, as long as PDFium counts so
/// far.
pub proof fn law_raster_sizes(key: RenderKey)
    ensures
        match spec_raster_size(key) {
            Ok((width, height)) => width == key.width && height == key.height,
            Err(error) => {
                &&& key.width >= 0x8000_0000 || key.height >= 0x8000_0000
                &&& key.width >= 0x8000_0000 ==> error == RenderError::WidthTooLarge
                &&& key.width < 0x8000_0000 ==> error == RenderError::HeightTooLarge
            },
        },
        key.width < 0x8000_0000 && key.height < 0x8000_0000 ==> spec_raster_size(key) is Ok,
{
}

/// An answer bears the key of its request, but for the page, which is the one that
/// was rasterized.
pub proof fn law_answers(
    key: RenderKey,
    choice: PageChoice,
    bitmap: Bitmap,
    page_size_points: (Single, Single),
)
    ensures
        spec_ready(key, choice, bitmap, page_size_points) matches RenderEvent::Ready {
            key: answered,
            bitmap: answer,
            page_count,
            page_size_points: size,
        } && {
            &&& answered.generation == key.generation
            &&& answered.page == choice.index
            &&& answered.width == key.width
            &&& answered.height == key.height
            &&& answer == bitmap
            &&& page_count == choice.page_count
            &&& size == page_size_points
        },
{
}

/// Each request waits among those of its kind.
pub open spec fn is_sorted_by_kind(queue: QueueState) -> bool {
    &&& forall|i: int|
        0 <= i < queue.current.len() ==> (#[trigger] queue.current[i]).kind == RenderKind::Current
    &&& forall|i: int|
        0 <= i < queue.prefetch.len() ==> (#[trigger] queue.prefetch[i]).kind
            == RenderKind::Prefetch
}

/// A request joins the others without changing their order: one for a page that
/// may follow at the end, and one for the page on display before all of those and
/// behind all others.
pub proof fn law_requests_queue_up(queue: QueueState, request: RenderRequest) -> (at: int)
    requires
        is_sorted_by_kind(queue),
    ensures
        is_sorted_by_kind(queue.push(request)),
        0 <= at <= queue.pending().len(),
        queue.push(request).pending() == queue.pending().insert(at, request),
        request.kind == RenderKind::Prefetch ==> at == queue.pending().len(),
        request.kind == RenderKind::Current ==> {
            &&& forall|i: int|
                0 <= i < at ==> (#[trigger] queue.pending()[i]).kind == RenderKind::Current
            &&& forall|i: int|
                at <= i < queue.pending().len() ==> (#[trigger] queue.pending()[i]).kind
                    == RenderKind::Prefetch
        },
{
    let at = match request.kind {
        RenderKind::Current => queue.current.len() as int,
        RenderKind::Prefetch => queue.pending().len() as int,
    };
    assert(queue.push(request).pending() =~= queue.pending().insert(at, request));
    at
}

/// The request in front is taken up, and the others move up; of an empty queue
/// none is.
pub proof fn law_requests_are_taken_from_the_front(queue: QueueState)
    requires
        is_sorted_by_kind(queue),
    ensures
        ({
            let (next, taken) = queue.pop();
            &&& is_sorted_by_kind(next)
            &&& match taken {
                Some(request) => queue.pending() == seq![request] + next.pending(),
                None => queue.pending().len() == 0 && next == queue,
            }
        }),
{
    let (next, taken) = queue.pop();
    if let Some(request) = taken {
        assert(queue.pending() =~= seq![request] + next.pending());
    }
}

} // verus!

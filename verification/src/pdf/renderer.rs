//! Requests to the raster worker and what it answers.

use crate::app::{clamp_page, spec_clamp_page, RenderKey};
use crate::layout::Single;
use std::path::PathBuf;
use vstd::prelude::*;

verus! {

/// A rasterized page, four bytes to the pixel.
#[derive(Clone, Debug)]
pub struct Bitmap {
    pub width: u32,
    pub height: u32,
    pub rgba: Vec<u8>,
}

/// Why a page is wanted.
#[derive(Clone, Copy, Debug, PartialEq, Eq, Structural)]
pub enum RenderKind {
    /// It is on display.
    Current,
    /// It may be on display next.
    Prefetch,
}

#[derive(Clone, Debug)]
pub struct RenderRequest {
    pub path: PathBuf,
    pub key: RenderKey,
    pub kind: RenderKind,
}

#[derive(Debug)]
pub enum RenderEvent {
    Ready {
        key: RenderKey,
        bitmap: Bitmap,
        page_count: usize,
        page_size_points: (Single, Single),
    },
    Failed { key: RenderKey, message: String },
}

/// Why no page was rasterized.
#[derive(Clone, Copy, Debug, PartialEq, Eq, Structural)]
pub enum RenderError {
    /// PDFium counted fewer than no pages.
    InvalidPageCount,
    NoPages,
    WidthTooLarge,
    HeightTooLarge,
}

impl RenderError {
    pub open spec fn spec_message(self) -> Seq<char> {
        match self {
            RenderError::InvalidPageCount =>
                "invalid PDF page count: out of range integral type conversion attempted"@,
            RenderError::NoPages => "PDF contains no pages"@,
            RenderError::WidthTooLarge =>
                "render width is too large: out of range integral type conversion attempted"@,
            RenderError::HeightTooLarge =>
                "render height is too large: out of range integral type conversion attempted"@,
        }
    }

    pub fn message(self) -> (r: String)
        ensures
            r@ == self.spec_message(),
    {
        match self {
            RenderError::InvalidPageCount =>
                "invalid PDF page count: out of range integral type conversion attempted".to_owned(),
            RenderError::NoPages => "PDF contains no pages".to_owned(),
            RenderError::WidthTooLarge =>
                "render width is too large: out of range integral type conversion attempted".to_owned(),
            RenderError::HeightTooLarge =>
                "render height is too large: out of range integral type conversion attempted".to_owned(),
        }
    }
}

/// The page that is rasterized for a request.
#[derive(Clone, Copy, Debug, PartialEq, Eq, Structural)]
pub struct PageChoice {
    /// Number of pages of the document.
    pub page_count: usize,
    /// The page, counted from zero.
    pub index: usize,
    /// The same, as PDFium counts.
    pub pdfium_index: i32,
}

pub open spec fn spec_choose_page(page: usize, total: i32) -> Result<PageChoice, RenderError> {
    if total < 0 {
        Err(RenderError::InvalidPageCount)
    } else if total == 0 {
        Err(RenderError::NoPages)
    } else {
        Ok(
            PageChoice {
                page_count: total as usize,
                index: spec_clamp_page(page as int, total as int) as usize,
                pdfium_index: spec_clamp_page(page as int, total as int) as i32,
            },
        )
    }
}

/// The requested page, or the last page where there are not so many.
pub fn choose_page(page: usize, total: i32) -> (r: Result<PageChoice, RenderError>)
    ensures
        match r {
            Ok(choice) => {
                &&& total > 0
                &&& choice.page_count == total
                &&& choice.index == spec_clamp_page(page as int, total as int)
                &&& choice.pdfium_index == choice.index
            },
            Err(RenderError::InvalidPageCount) => total < 0,
            Err(RenderError::NoPages) => total == 0,
            Err(_) => false,
        },
        r == spec_choose_page(page, total),
{
    if total < 0 {
        return Err(RenderError::InvalidPageCount);
    }
    if total == 0 {
        return Err(RenderError::NoPages);
    }
    let page_count: usize = total as usize;
    let index: usize = clamp_page(page, page_count);
    Ok(PageChoice { page_count, index, pdfium_index: index as i32 })
}

pub open spec fn spec_raster_size(key: RenderKey) -> Result<(i32, i32), RenderError> {
    if key.width > i32::MAX {
        Err(RenderError::WidthTooLarge)
    } else if key.height > i32::MAX {
        Err(RenderError::HeightTooLarge)
    } else {
        Ok((key.width as i32, key.height as i32))
    }
}

/// The dimensions of the raster, as PDFium takes them.
pub fn raster_size(key: RenderKey) -> (r: Result<(i32, i32), RenderError>)
    ensures
        match r {
            Ok((width, height)) => width == key.width && height == key.height,
            Err(RenderError::WidthTooLarge) => key.width > i32::MAX,
            Err(RenderError::HeightTooLarge) => key.width <= i32::MAX && key.height > i32::MAX,
            Err(_) => false,
        },
        r == spec_raster_size(key),
{
    if key.width > 0x7fff_ffff {
        return Err(RenderError::WidthTooLarge);
    }
    if key.height > 0x7fff_ffff {
        return Err(RenderError::HeightTooLarge);
    }
    Ok((key.width as i32, key.height as i32))
}

pub open spec fn spec_ready(
    key: RenderKey,
    choice: PageChoice,
    bitmap: Bitmap,
    page_size_points: (Single, Single),
) -> RenderEvent {
    RenderEvent::Ready {
        key: RenderKey { page: choice.index, ..key },
        bitmap,
        page_count: choice.page_count,
        page_size_points,
    }
}

/// The answer to a request: it names the page that was rasterized.
pub fn ready(
    key: RenderKey,
    choice: PageChoice,
    bitmap: Bitmap,
    page_size_points: (Single, Single),
) -> (r: RenderEvent)
    ensures
        r == (RenderEvent::Ready {
            key: RenderKey { page: choice.index, ..key },
            bitmap,
            page_count: choice.page_count,
            page_size_points,
        }),
        r == spec_ready(key, choice, bitmap, page_size_points),
{
    RenderEvent::Ready {
        key: RenderKey { page: choice.index, ..key },
        bitmap,
        page_count: choice.page_count,
        page_size_points,
    }
}

/// The requests that the worker has not taken up yet.
#[verifier::ext_equal]
pub struct QueueState {
    pub current: Seq<RenderRequest>,
    pub prefetch: Seq<RenderRequest>,
}

impl QueueState {
    /// The requests in the order in which they are taken up.
    pub open spec fn pending(self) -> Seq<RenderRequest> {
        self.current + self.prefetch
    }

    pub open spec fn push(self, request: RenderRequest) -> Self {
        match request.kind {
            RenderKind::Current => QueueState { current: self.current.push(request), ..self },
            RenderKind::Prefetch => QueueState { prefetch: self.prefetch.push(request), ..self },
        }
    }

    pub open spec fn pop(self) -> (Self, Option<RenderRequest>) {
        if self.current.len() > 0 {
            (
                QueueState { current: self.current.drop_first(), ..self },
                Some(self.current.first()),
            )
        } else if self.prefetch.len() > 0 {
            (
                QueueState { prefetch: self.prefetch.drop_first(), ..self },
                Some(self.prefetch.first()),
            )
        } else {
            (self, None)
        }
    }
}

impl View for RenderQueue {
    type V = QueueState;

    open spec fn view(&self) -> QueueState {
        QueueState { current: self.current@, prefetch: self.prefetch@ }
    }
}

/// Requests that the worker has not taken up yet.
#[derive(Debug)]
pub struct RenderQueue {
    pub current: Vec<RenderRequest>,
    pub prefetch: Vec<RenderRequest>,
}

impl RenderQueue {
    pub fn new() -> (r: Self)
        ensures
            r.current@ == Seq::<RenderRequest>::empty(),
            r.prefetch@ == Seq::<RenderRequest>::empty(),
    {
        RenderQueue { current: Vec::new(), prefetch: Vec::new() }
    }

    /// The requests in the order in which they are taken up.
    pub open spec fn pending(&self) -> Seq<RenderRequest> {
        self.current@ + self.prefetch@
    }

    /// A request for the page on display goes before all pages that may follow,
    /// and otherwise every request goes behind those that were there.
    pub fn push(&mut self, request: RenderRequest)
        ensures
            request.kind == RenderKind::Current ==> {
                &&& final(self).current@ == old(self).current@.push(request)
                &&& final(self).prefetch@ == old(self).prefetch@
            },
            request.kind == RenderKind::Prefetch ==> {
                &&& final(self).current@ == old(self).current@
                &&& final(self).prefetch@ == old(self).prefetch@.push(request)
                &&& final(self).pending() == old(self).pending().push(request)
            },
            final(self)@ == old(self)@.push(request),
    {
        match request.kind {
            RenderKind::Current => {
                self.current.push(request);
            },
            RenderKind::Prefetch => {
                self.prefetch.push(request);
                assert(self.pending() =~= old(self).pending().push(request));
            },
        }
    }

    /// The request to take up next. The page on display goes before pages that
    /// may follow; other than that, first come, first served.
    pub fn pop(&mut self) -> (r: Option<RenderRequest>)
        ensures
            match r {
                Some(request) => {
                    &&& old(self).pending().len() > 0
                    &&& request == old(self).pending().first()
                    &&& final(self).pending() == old(self).pending().drop_first()
                },
                None => old(self).pending().len() == 0 && *final(self) == *old(self),
            },
            old(self).current@.len() > 0 ==> {
                &&& r == Some(old(self).current@.first())
                &&& final(self).current@ == old(self).current@.drop_first()
                &&& final(self).prefetch@ == old(self).prefetch@
            },
            old(self).current@.len() == 0 && old(self).prefetch@.len() > 0 ==> {
                &&& r == Some(old(self).prefetch@.first())
                &&& final(self).current@ == old(self).current@
                &&& final(self).prefetch@ == old(self).prefetch@.drop_first()
            },
            (final(self)@, r) == old(self)@.pop(),
    {
        if self.current.len() > 0 {
            let r = self.current.remove(0);
            assert(self.current@ =~= old(self).current@.drop_first());
            assert(self.pending() =~= old(self).pending().drop_first());
            Some(r)
        } else if self.prefetch.len() > 0 {
            let r = self.prefetch.remove(0);
            assert(self.prefetch@ =~= old(self).prefetch@.drop_first());
            assert(self.pending() =~= old(self).pending().drop_first());
            Some(r)
        } else {
            None
        }
    }
}

} // verus!

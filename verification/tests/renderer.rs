use std::path::PathBuf;
use tpdf::app::RenderKey;
use tpdf::layout::Single;
use tpdf::pdf::document::PdfDocument;
use tpdf::pdf::renderer::{
    choose_page, raster_size, ready, Bitmap, PageChoice, RenderError, RenderEvent, RenderKind,
    RenderQueue, RenderRequest,
};

fn key(page: usize) -> RenderKey {
    RenderKey { generation: 1, page, width: 300, height: 400 }
}

fn request(page: usize, kind: RenderKind) -> RenderRequest {
    RenderRequest { path: PathBuf::from("a.pdf"), key: key(page), kind }
}

#[test]
fn a_document_starts_without_pages() {
    let document = PdfDocument::new(PathBuf::from("a.pdf"));
    assert_eq!(document.path, PathBuf::from("a.pdf"));
    assert_eq!(document.page_count, 0);
    assert_eq!(document.clone(), document);
}

#[test]
fn pages_are_chosen_within_the_document() {
    assert_eq!(
        choose_page(3, 10),
        Ok(PageChoice { page_count: 10, index: 3, pdfium_index: 3 }),
    );
    assert_eq!(
        choose_page(30, 10),
        Ok(PageChoice { page_count: 10, index: 9, pdfium_index: 9 }),
    );
    assert_eq!(choose_page(0, 0), Err(RenderError::NoPages));
    assert_eq!(choose_page(0, -1), Err(RenderError::InvalidPageCount));
}

#[test]
fn rasters_have_limits() {
    assert_eq!(raster_size(key(0)), Ok((300, 400)));
    let wide = RenderKey { width: 0x8000_0000, height: u32::MAX, ..key(0) };
    assert_eq!(raster_size(wide), Err(RenderError::WidthTooLarge));
    let tall = RenderKey { width: 0x7fff_ffff, height: 0x8000_0000, ..key(0) };
    assert_eq!(raster_size(tall), Err(RenderError::HeightTooLarge));
}

#[test]
fn errors_have_messages() {
    assert_eq!(RenderError::NoPages.message(), "PDF contains no pages");
    let cause = i32::try_from(u32::MAX).unwrap_err();
    assert_eq!(
        RenderError::InvalidPageCount.message(),
        format!("invalid PDF page count: {cause}"),
    );
    assert_eq!(
        RenderError::WidthTooLarge.message(),
        format!("render width is too large: {cause}"),
    );
    assert_eq!(
        RenderError::HeightTooLarge.message(),
        format!("render height is too large: {cause}"),
    );
}

#[test]
fn an_answer_names_the_page_that_was_rasterized() {
    let bitmap = Bitmap { width: 300, height: 400, rgba: vec![1] };
    let size = (Single { bits: 1 }, Single { bits: 2 });
    match ready(key(30), choose_page(30, 10).unwrap(), bitmap, size) {
        RenderEvent::Ready { key: answered, bitmap, page_count, page_size_points } => {
            assert_eq!(answered, key(9));
            assert_eq!(bitmap.rgba, vec![1]);
            assert_eq!(page_count, 10);
            assert_eq!(page_size_points, size);
        }
        RenderEvent::Failed { .. } => panic!("failed"),
    }
}

#[test]
fn the_page_on_display_goes_first() {
    let mut queue = RenderQueue::new();
    assert!(queue.pop().is_none());
    queue.push(request(1, RenderKind::Prefetch));
    queue.push(request(2, RenderKind::Prefetch));
    queue.push(request(3, RenderKind::Current));
    queue.push(request(4, RenderKind::Current));
    queue.push(request(5, RenderKind::Prefetch));
    let mut order = Vec::new();
    while let Some(request) = queue.pop() {
        order.push(request.key.page);
    }
    assert_eq!(order, vec![3, 4, 1, 2, 5]);
}

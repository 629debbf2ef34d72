//! Which bitmaps are at hand.

use crate::app::{bound_command, AppState, RenderKey};
use crate::cache::near;
use crate::event::KeyEvent;
use crate::laws::navigation::is_brought_back;
use crate::layout::Single;
use crate::pdf::renderer::Bitmap;
use crate::terminal::size::TerminalSize;
use vstd::prelude::*;

verus! {

/// Three bitmaps at most are at hand.
pub open spec fn at_most_three(cached: Map<RenderKey, Bitmap>) -> bool {
    cached.dom().finite() && cached.dom().len() <= 3
}

proof fn lemma_near_keys(cached: Map<RenderKey, Bitmap>, active: RenderKey)
    requires
        forall|k: RenderKey| #[trigger] cached.contains_key(k) ==> near(k, active),
    ensures
        at_most_three(cached),
{
    let before = RenderKey { page: (active.page - 1) as usize, ..active };
    let behind = RenderKey { page: (active.page + 1) as usize, ..active };
    let window = Set::empty().insert(active).insert(before).insert(behind);
    assert(cached.dom().subset_of(window)) by {
        assert forall|k: RenderKey| cached.dom().contains(k) implies window.contains(k) by {
            assert(cached.contains_key(k));
            if k.page == active.page {
                assert(k == active);
            } else if k.page < active.page {
                assert(k == before);
            } else {
                assert(k == behind);
            }
        }
    }
    vstd::set_lib::lemma_len_subset(cached.dom(), window);
}

/// The cache never holds more than three bitmaps: it starts empty, a reload
/// empties it, and whatever comes in, no more than three stay.
pub proof fn law_cache_holds_three(app: AppState, key: RenderKey, bitmap: Bitmap)
    ensures
        at_most_three(AppState::initial(app.terminal).cached),
        at_most_three(app.reload().cached),
        at_most_three(app.cached) ==> at_most_three(app.insert_bitmap(key, bitmap).cached),
{
    if key.generation == app.generation {
        lemma_near_keys(
            app.insert_bitmap(key, bitmap).cached,
            app.render_key(app.current_page),
        );
    }
}

/// Keys, changes of size and what is learnt of the document leave the bitmaps at
/// hand as they are.
pub proof fn law_cache_is_left_alone(
    app: AppState,
    key: KeyEvent,
    terminal: TerminalSize,
    page_count: usize,
    page_size_points: (Single, Single),
)
    ensures
        app.run(bound_command(key)).cached == app.cached,
        app.resize(terminal).cached == app.cached,
        app.set_document(page_count, page_size_points).cached == app.cached,
{
}

/// After a bitmap came in, what is at hand is of the generation and dimensions
/// in force, and of the current page or a neighbour.
pub proof fn law_cache_is_active(app: AppState, key: RenderKey, bitmap: Bitmap, held: RenderKey)
    requires
        key.generation == app.generation,
        app.insert_bitmap(key, bitmap).cached.contains_key(held),
    ensures
        held == app.insert_bitmap(key, bitmap).render_key(held.page),
        held.page <= app.current_page + 1,
        app.current_page <= held.page + 1,
{
    assert(app.insert_bitmap(key, bitmap).dimensions() == app.dimensions());
}

/// A bitmap as it is wanted, of the current page or a neighbour, is at hand
/// once it came in.
pub proof fn law_bitmap_is_found_again(app: AppState, page: usize, bitmap: Bitmap)
    requires
        page <= app.current_page + 1,
        app.current_page <= page + 1,
    ensures
        ({
            let after = app.insert_bitmap(app.render_key(page), bitmap);
            &&& after.render_key(page) == app.render_key(page)
            &&& after.cached.contains_key(after.render_key(page))
            &&& after.cached[after.render_key(page)] == bitmap
        }),
{
    let key = app.render_key(page);
    assert(app.insert_bitmap(key, bitmap).dimensions() == app.dimensions());
    assert(near(key, app.render_key(app.current_page)));
}

/// A reload forgets every bitmap, and none that was asked for before it comes
/// in afterwards.
pub proof fn law_reload_forgets(app: AppState, key: RenderKey, bitmap: Bitmap)
    ensures
        !app.reload().cached.contains_key(key),
        key.generation == app.generation ==> app.reload().insert_bitmap(key, bitmap)
            == app.reload(),
{
}

/// The key is as a bitmap of this page would be wanted now, and the page is the
/// current one, the one before it or the one behind it.
pub open spec fn is_in_reach(app: AppState, key: RenderKey) -> bool {
    &&& key.generation == app.generation
    &&& key.width == app.dimensions().0 as u32
    &&& key.height == app.dimensions().1 as u32
    &&& key.page == app.current_page || key.page + 1 == app.current_page || key.page
        == app.current_page + 1
}

/// When a bitmap comes in, the others in reach stay at hand as they are; those out
/// of reach go.
pub proof fn law_others_stay_at_hand(
    app: AppState,
    key: RenderKey,
    bitmap: Bitmap,
    other: RenderKey,
)
    requires
        key.generation == app.generation,
        other != key,
    ensures
        ({
            let cached = app.insert_bitmap(key, bitmap).cached;
            &&& cached.contains_key(other) <==> app.cached.contains_key(other) && is_in_reach(
                app,
                other,
            )
            &&& cached.contains_key(other) ==> cached[other] == app.cached[other]
        }),
{
}

/// The bitmap that came in is at hand exactly where it is in reach, in place of
/// any that was there under the same key.
pub proof fn law_bitmap_comes_to_hand(app: AppState, key: RenderKey, bitmap: Bitmap)
    requires
        key.generation == app.generation,
    ensures
        ({
            let cached = app.insert_bitmap(key, bitmap).cached;
            &&& cached.contains_key(key) <==> is_in_reach(app, key)
            &&& cached.contains_key(key) ==> cached[key] == bitmap
        }),
{
}

/// A bitmap of the current page clears the message and brings the offsets back.
/// One of another page touches the cache alone, and one of another generation
/// nothing.
pub proof fn law_bitmap_changes_little_else(app: AppState, key: RenderKey, bitmap: Bitmap)
    ensures
        ({
            let next = app.insert_bitmap(key, bitmap);
            if key.generation != app.generation {
                next == app
            } else if key.page != app.current_page {
                next == AppState { cached: next.cached, ..app }
            } else {
                &&& next == (AppState {
                    cached: next.cached,
                    offset_x: next.offset_x,
                    offset_y: next.offset_y,
                    status: None,
                    dirty: true,
                    ..app
                })
                &&& is_brought_back(
                    app.offset_x,
                    next.offset_x,
                    app.dimensions().0,
                    app.terminal.spec_viewport_pixels().0,
                )
                &&& is_brought_back(
                    app.offset_y,
                    next.offset_y,
                    app.dimensions().1,
                    app.terminal.spec_viewport_pixels().1,
                )
            }
        }),
{
    let cached = app.cached_with(key, bitmap);
    let fresh = AppState { cached, status: None, dirty: true, ..app };
    assert(fresh.dimensions() == app.dimensions());
}

/// Bitmaps of the current page and of both neighbours are at hand together,
/// whichever came in first.
pub proof fn law_three_pages_fit(
    app: AppState,
    first: RenderKey,
    second: RenderKey,
    b1: Bitmap,
    b2: Bitmap,
)
    requires
        is_in_reach(app, first),
        is_in_reach(app, second),
        first != second,
    ensures
        ({
            let one = app.insert_bitmap(first, b1).insert_bitmap(second, b2).cached;
            let two = app.insert_bitmap(second, b2).insert_bitmap(first, b1).cached;
            &&& one == two
            &&& one.contains_key(first) && one[first] == b1
            &&& one.contains_key(second) && one[second] == b2
        }),
{
    let a = app.insert_bitmap(first, b1);
    let b = app.insert_bitmap(second, b2);
    assert(a.dimensions() == app.dimensions());
    assert(b.dimensions() == app.dimensions());
    assert(a.insert_bitmap(second, b2).cached =~= b.insert_bitmap(first, b1).cached);
}

/// A bitmap is found for a page where one is at hand under the generation, the page
/// and the dimensions in force, and it is that one. No other will do: not one of
/// another page, another generation or other dimensions.
pub proof fn law_bitmaps_are_found_by_their_key(app: AppState, page: usize, bitmap: Bitmap)
    ensures
        app.bitmap_of(page) == Some(bitmap) <==> exists|key: RenderKey| #[trigger]
            app.cached.contains_key(key) && app.cached[key] == bitmap && key.page == page
                && key.generation == app.generation && key.width == app.dimensions().0 as u32
                && key.height == app.dimensions().1 as u32,
        app.bitmap_of(page) is None <==> !app.cached.contains_key(app.render_key(page)),
{
    let wanted = app.render_key(page);
    if app.bitmap_of(page) == Some(bitmap) {
        assert(app.cached.contains_key(wanted));
    }
    assert forall|key: RenderKey| #[trigger]
        app.cached.contains_key(key) && key.page == page && key.generation == app.generation
            && key.width == app.dimensions().0 as u32 && key.height == app.dimensions().1
            as u32 implies key == wanted by {}
}

} // verus!

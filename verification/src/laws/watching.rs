//! Changes on disk.

use crate::event::AppEvent;
use crate::watcher::{concerns, spec_event_targets, spec_file_name, Component, FilePath, WatchTarget};
use vstd::prelude::*;

verus! {

/// The file name is what a path ends in, where that is a name.
pub proof fn law_file_names(front: Seq<Component<Seq<u8>>>, name: Seq<u8>)
    ensures
        spec_file_name(front.push(Component::Name(name))) == Some(name),
        spec_file_name(front.push(Component::Root)) is None,
        spec_file_name(front.push(Component::CurrentDirectory)) is None,
        spec_file_name(front.push(Component::ParentDirectory)) is None,
        spec_file_name(front.push(Component::Prefix(name))) is None,
        spec_file_name(Seq::empty()) is None,
{
}

/// A path concerns the document where it is that of the document, or leads to its
/// name in whatever directory. No other path does.
pub proof fn law_which_paths_count(
    path: Seq<Component<Seq<u8>>>,
    target: Seq<Component<Seq<u8>>>,
    name: Seq<u8>,
)
    ensures
        concerns(target, target, name),
        path.len() > 0 && path.last() == Component::Name(name) ==> concerns(path, target, name),
        path != target && (path.len() == 0 || path.last() != Component::Name(name)) ==> !concerns(
            path,
            target,
            name,
        ),
{
}

/// Of several paths one is enough, and of none nothing follows.
pub proof fn law_one_path_is_enough(
    before: Seq<FilePath>,
    path: FilePath,
    after: Seq<FilePath>,
    target: Seq<Component<Seq<u8>>>,
    name: Seq<u8>,
)
    ensures
        !spec_event_targets(Seq::empty(), target, name),
        spec_event_targets(before.push(path) + after, target, name) <==> concerns(
            path@,
            target,
            name,
        ) || spec_event_targets(before, target, name) || spec_event_targets(after, target, name),
{
    let all = before.push(path) + after;
    let n = before.len() as int;
    if concerns(path@, target, name) {
        assert(all[n] == path);
    }
    if spec_event_targets(before, target, name) {
        let i = choose|i: int|
            0 <= i < before.len() && concerns((#[trigger] before[i])@, target, name);
        assert(all[i] == before[i]);
    }
    if spec_event_targets(after, target, name) {
        let i = choose|i: int|
            0 <= i < after.len() && concerns((#[trigger] after[i])@, target, name);
        assert(all[n + 1 + i] == after[i]);
    }
    if spec_event_targets(all, target, name) {
        let i = choose|i: int| 0 <= i < all.len() && concerns((#[trigger] all[i])@, target, name);
        if i < n {
            assert(before[i] == all[i]);
        } else if i > n {
            assert(after[i - n - 1] == all[i]);
        }
    }
}

/// The loop is told of a change exactly where one of the paths is that of the
/// document or has its name, and of every error.
pub proof fn law_notices(target: WatchTarget, outcome: Result<Vec<FilePath>, String>)
    requires
        target.valid(),
    ensures
        match outcome {
            Ok(paths) => {
                let counts = exists|i: int|
                    0 <= i < paths@.len() && ((#[trigger] paths@[i])@ == target.path@ || (
                    paths@[i]@.len() > 0 && paths@[i]@.last() == Component::Name(target.name@)));
                &&& counts ==> target.spec_notice(outcome) == Some(AppEvent::FileChanged)
                &&& !counts ==> target.spec_notice(outcome) is None
            },
            Err(message) => target.spec_notice(outcome) == Some(AppEvent::WatchError(message)),
        },
        target.path@.len() > 0 && target.path@.last() == Component::Name(target.name@),
{
    if let Ok(paths) = outcome {
        if spec_event_targets(paths@, target.path@, target.name@) {
            let i = choose|i: int|
                0 <= i < paths@.len() && concerns(
                    (#[trigger] paths@[i])@,
                    target.path@,
                    target.name@,
                );
            law_which_paths_count(paths@[i]@, target.path@, target.name@);
        }
        assert forall|i: int|
            0 <= i < paths@.len() && ((#[trigger] paths@[i])@ == target.path@ || (paths@[i]@.len()
                > 0 && paths@[i]@.last() == Component::Name(target.name@))) implies concerns(
            paths@[i]@,
            target.path@,
            target.name@,
        ) by {
            law_which_paths_count(paths@[i]@, target.path@, target.name@);
        }
    }
}

} // verus!

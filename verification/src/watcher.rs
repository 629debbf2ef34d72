//! Which changes on disk concern the document.

use crate::event::AppEvent;
use crate::text::same_bytes;
use vstd::prelude::*;

verus! {

/// A component of a path.
#[derive(Debug)]
pub enum Component<B> {
    /// A drive or a share.
    Prefix(B),
    Root,
    CurrentDirectory,
    ParentDirectory,
    Name(B),
}

/// A path, by its components.
#[derive(Debug)]
pub struct FilePath {
    pub components: Vec<Component<Vec<u8>>>,
}

impl View for Component<Vec<u8>> {
    type V = Component<Seq<u8>>;

    open spec fn view(&self) -> Component<Seq<u8>> {
        match self {
            Component::Prefix(bytes) => Component::Prefix(bytes@),
            Component::Root => Component::Root,
            Component::CurrentDirectory => Component::CurrentDirectory,
            Component::ParentDirectory => Component::ParentDirectory,
            Component::Name(bytes) => Component::Name(bytes@),
        }
    }
}

impl View for FilePath {
    type V = Seq<Component<Seq<u8>>>;

    open spec fn view(&self) -> Seq<Component<Seq<u8>>> {
        self.components@.map_values(|c: Component<Vec<u8>>| c@)
    }
}

/// The last component, where it is a name.
pub open spec fn spec_file_name(path: Seq<Component<Seq<u8>>>) -> Option<Seq<u8>> {
    if path.len() > 0 {
        match path.last() {
            Component::Name(name) => Some(name),
            _ => None,
        }
    } else {
        None
    }
}

/// A change of `path` is a change of the target: it is the same path, or ends
/// in the same file name.
pub open spec fn concerns(
    path: Seq<Component<Seq<u8>>>,
    target: Seq<Component<Seq<u8>>>,
    target_name: Seq<u8>,
) -> bool {
    path == target || spec_file_name(path) == Some(target_name)
}

fn same_component(a: &Component<Vec<u8>>, b: &Component<Vec<u8>>) -> (r: bool)
    ensures
        r == (a@ == b@),
{
    match (a, b) {
        (Component::Prefix(x), Component::Prefix(y)) => same_bytes(x.as_slice(), y.as_slice()),
        (Component::Root, Component::Root) => true,
        (Component::CurrentDirectory, Component::CurrentDirectory) => true,
        (Component::ParentDirectory, Component::ParentDirectory) => true,
        (Component::Name(x), Component::Name(y)) => same_bytes(x.as_slice(), y.as_slice()),
        _ => false,
    }
}

impl FilePath {
    /// Both have the same components.
    pub fn same(&self, other: &FilePath) -> (r: bool)
        ensures
            r == (self@ == other@),
    {
        if self.components.len() != other.components.len() {
            assert(self@.len() != other@.len());
            return false;
        }
        let mut i: usize = 0;
        while i < self.components.len()
            invariant
                i <= self.components@.len(),
                self.components@.len() == other.components@.len(),
                forall|j: int| 0 <= j < i ==> #[trigger] self@[j] == other@[j],
            decreases self.components@.len() - i,
        {
            if !same_component(&self.components[i], &other.components[i]) {
                assert(self@[i as int] != other@[i as int]);
                return false;
            }
            i = i + 1;
        }
        assert(self@ =~= other@);
        true
    }

    pub fn file_name(&self) -> (r: Option<&Vec<u8>>)
        ensures
            match r {
                Some(name) => spec_file_name(self@) == Some(name@),
                None => spec_file_name(self@) is None,
            },
    {
        if self.components.len() == 0 {
            return None;
        }
        let last = &self.components[self.components.len() - 1];
        assert(self@.last() == last@);
        match last {
            Component::Name(name) => Some(name),
            _ => None,
        }
    }
}

/// One of the paths concerns the target.
pub open spec fn spec_event_targets(
    paths: Seq<FilePath>,
    target: Seq<Component<Seq<u8>>>,
    target_name: Seq<u8>,
) -> bool {
    exists|i: int| 0 <= i < paths.len() && concerns((#[trigger] paths[i])@, target, target_name)
}

/// One of the paths concerns the target.
pub fn event_targets(paths: &[FilePath], target: &FilePath, target_name: &[u8]) -> (r: bool)
    ensures
        r == exists|i: int|
            0 <= i < paths@.len() && concerns((#[trigger] paths@[i])@, target@, target_name@),
        r == spec_event_targets(paths@, target@, target_name@),
{
    let mut i: usize = 0;
    while i < paths.len()
        invariant
            i <= paths@.len(),
            forall|j: int|
                0 <= j < i ==> !concerns((#[trigger] paths@[j])@, target@, target_name@),
        decreases paths@.len() - i,
    {
        let path = &paths[i];
        let named = match path.file_name() {
            Some(name) => same_bytes(name.as_slice(), target_name),
            None => false,
        };
        if named || path.same(target) {
            assert(concerns(paths@[i as int]@, target@, target_name@));
            return true;
        }
        i = i + 1;
    }
    false
}

/// Why a path cannot be watched.
#[derive(Clone, Copy, Debug, PartialEq, Eq, Structural)]
pub enum WatchTargetError {
    NoFileName,
}

impl WatchTargetError {
    pub fn message(self) -> (r: String)
        ensures
            r@ == "PDF path has no file name"@,
    {
        "PDF path has no file name".to_owned()
    }
}

/// The document that is watched for.
#[derive(Debug)]
pub struct WatchTarget {
    pub path: FilePath,
    pub name: Vec<u8>,
}

impl WatchTarget {
    /// The name is that of the file.
    pub open spec fn valid(&self) -> bool {
        spec_file_name(self.path@) == Some(self.name@)
    }

    /// What is told of a notification.
    pub open spec fn spec_notice(&self, outcome: Result<Vec<FilePath>, String>) -> Option<AppEvent> {
        match outcome {
            Ok(paths) => if spec_event_targets(paths@, self.path@, self.name@) {
                Some(AppEvent::FileChanged)
            } else {
                None
            },
            Err(message) => Some(AppEvent::WatchError(message)),
        }
    }

    pub fn new(path: FilePath) -> (r: Result<Self, WatchTargetError>)
        ensures
            match r {
                Ok(target) => target.path == path && target.valid(),
                Err(_) => spec_file_name(path@) is None,
            },
    {
        let name = match path.file_name() {
            Some(name) => vstd::slice::slice_to_vec(name.as_slice()),
            None => {
                return Err(WatchTargetError::NoFileName);
            },
        };
        Ok(WatchTarget { path, name })
    }

    /// What to tell the main loop of a notification: the paths that changed, or
    /// what went wrong.
    pub fn notice(&self, outcome: Result<Vec<FilePath>, String>) -> (r: Option<AppEvent>)
        ensures
            r == match outcome {
                Ok(paths) => if exists|i: int|
                    0 <= i < paths@.len() && concerns(
                        (#[trigger] paths@[i])@,
                        self.path@,
                        self.name@,
                    ) {
                    Some(AppEvent::FileChanged)
                } else {
                    None
                },
                Err(message) => Some(AppEvent::WatchError(message)),
            },
            r == self.spec_notice(outcome),
    {
        match outcome {
            Ok(paths) => if event_targets(paths.as_slice(), &self.path, self.name.as_slice()) {
                Some(AppEvent::FileChanged)
            } else {
                None
            },
            Err(message) => Some(AppEvent::WatchError(message)),
        }
    }
}

} // verus!

use std::path::{Path, PathBuf};
use tpdf::event::AppEvent;
use tpdf::watcher::{event_targets, Component, FilePath, WatchTarget, WatchTargetError};

fn file_path(path: &Path) -> FilePath {
    FilePath {
        components: path
            .components()
            .map(|component| match component {
                std::path::Component::Prefix(prefix) => {
                    Component::Prefix(prefix.as_os_str().as_encoded_bytes().to_vec())
                }
                std::path::Component::RootDir => Component::Root,
                std::path::Component::CurDir => Component::CurrentDirectory,
                std::path::Component::ParentDir => Component::ParentDirectory,
                std::path::Component::Normal(name) => {
                    Component::Name(name.as_encoded_bytes().to_vec())
                }
            })
            .collect(),
    }
}

#[test]
fn atomic_replace_paths_match_by_target_name() {
    let target = Path::new("/tmp/out/document.pdf");
    let name = target.file_name().unwrap().as_encoded_bytes();
    assert!(event_targets(
        &[file_path(&PathBuf::from("/tmp/out/document.pdf"))],
        &file_path(target),
        name,
    ));
    assert!(!event_targets(
        &[file_path(&PathBuf::from("/tmp/out/.document.pdf.tmp"))],
        &file_path(target),
        name,
    ));
}

#[test]
fn the_name_is_enough() {
    let target = file_path(Path::new("/tmp/out/document.pdf"));
    let other = file_path(Path::new("/somewhere/document.pdf"));
    assert!(event_targets(&[other], &target, b"document.pdf"));
    let paths = [
        file_path(Path::new("/tmp/out/a")),
        file_path(Path::new("/tmp/out/document.pdf")),
    ];
    assert!(event_targets(&paths, &target, b"document.pdf"));
    assert!(!event_targets(&[], &target, b"document.pdf"));
}

#[test]
fn the_same_path_is_enough() {
    let root = file_path(Path::new("/tmp/out/.."));
    let same = file_path(Path::new("/tmp//out/./.."));
    assert!(event_targets(&[same], &root, b"x"));
}

#[test]
fn file_names_are_those_of_the_standard_library() {
    for text in ["/", "", ".", "..", "/a/..", "a", "/a/b.pdf", "a/b/", "./a", "../b"] {
        let path = Path::new(text);
        assert_eq!(
            file_path(path).file_name().map(|name| name.as_slice()),
            path.file_name().map(|name| name.as_encoded_bytes()),
        );
    }
}

#[test]
fn paths_are_equal_as_in_the_standard_library() {
    let texts = ["/", "", ".", "/a", "a", "/a/", "/a//b", "/a/b", "/a/./b", "a/b", "./a/b", "/a/../b"];
    for x in texts {
        for y in texts {
            assert_eq!(
                file_path(Path::new(x)).same(&file_path(Path::new(y))),
                Path::new(x) == Path::new(y),
                "{x} {y}",
            );
        }
    }
}

#[test]
fn a_target_needs_a_file_name() {
    let error = WatchTarget::new(file_path(Path::new("/"))).unwrap_err();
    assert_eq!(error, WatchTargetError::NoFileName);
    assert_eq!(error.message(), "PDF path has no file name");
    let target = WatchTarget::new(file_path(Path::new("/tmp/a.pdf"))).unwrap();
    assert_eq!(target.name, b"a.pdf".to_vec());
}

#[test]
fn notices() {
    let target = WatchTarget::new(file_path(Path::new("/tmp/a.pdf"))).unwrap();
    let changed = target.notice(Ok(vec![file_path(Path::new("/tmp/a.pdf"))]));
    assert!(matches!(changed, Some(AppEvent::FileChanged)));
    let other = target.notice(Ok(vec![file_path(Path::new("/tmp/b.pdf"))]));
    assert!(other.is_none());
    match target.notice(Err("broken".to_string())) {
        Some(AppEvent::WatchError(message)) => assert_eq!(message, "broken"),
        _ => panic!("no error"),
    }
}

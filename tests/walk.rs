use media_file_manager::media::MediaType;
use media_file_manager::walk::{DirEntryInfo, WalkAction, Walker};
use tokio_util::sync::CancellationToken;

fn file(path: &str) -> DirEntryInfo {
    DirEntryInfo { path: path.to_string(), is_dir: false, is_file: true }
}

fn dir(path: &str) -> DirEntryInfo {
    DirEntryInfo { path: path.to_string(), is_dir: true, is_file: false }
}

fn processed_path(a: &WalkAction) -> Option<String> {
    match a {
        WalkAction::Process(t) => Some(t.path.clone()),
        _ => None,
    }
}

#[test]
fn walk_depth_first_in_listing_order() {
    let mut w = Walker::new(
        vec![file("/r/a.jpg"), dir("/r/sub"), file("/r/noext"), file("/r/z.MP4")],
        false,
    );
    assert_eq!(processed_path(&w.next_with(false)), Some("/r/a.jpg".to_string()));
    match w.next_with(false) {
        WalkAction::Descend(p) => assert_eq!(p, "/r/sub"),
        other => panic!("expected descend, got {:?}", other),
    }
    w.enter(vec![file("/r/sub/b.mov")]);
    assert_eq!(processed_path(&w.next_with(false)), Some("/r/sub/b.mov".to_string()));
    match w.next_with(false) {
        WalkAction::Skip(p) => assert_eq!(p, "/r/noext"),
        other => panic!("expected skip, got {:?}", other),
    }
    match w.next_with(false) {
        WalkAction::Process(t) => {
            assert_eq!(t.extension, "mp4");
            assert_eq!(t.media_type, MediaType::Video);
        }
        other => panic!("expected process, got {:?}", other),
    }
    assert!(matches!(w.next_with(false), WalkAction::Done));
    assert!(matches!(w.next_with(true), WalkAction::Cancelled));
}

#[test]
fn walk_task_contents() {
    let mut w = Walker::new(vec![file("/x/y/z/w/photo.JPEG")], false);
    match w.next_with(false) {
        WalkAction::Process(t) => {
            assert_eq!(t.path, "/x/y/z/w/photo.JPEG");
            assert_eq!(t.extension, "jpg");
            assert_eq!(t.media_type, MediaType::Image);
            assert_eq!(t.upper_folders, vec!["y", "z", "w"]);
            assert_eq!(t.file_name, "photo.JPEG");
        }
        other => panic!("expected process, got {:?}", other),
    }
}

#[test]
fn cancel_before_start() {
    let mut w = Walker::new(vec![file("/r/a.jpg"), file("/r/b.jpg")], false);
    assert!(matches!(w.next_with(true), WalkAction::Cancelled));
    assert!(matches!(w.next_with(true), WalkAction::Cancelled));
}

#[test]
fn cancel_mid_walk_stops_before_siblings() {
    let mut w = Walker::new(vec![dir("/r/d"), file("/r/after.jpg")], false);
    assert!(matches!(w.next_with(false), WalkAction::Descend(_)));
    w.enter(vec![file("/r/d/one.jpg"), file("/r/d/two.jpg")]);
    assert_eq!(processed_path(&w.next_with(false)), Some("/r/d/one.jpg".to_string()));
    assert!(matches!(w.next_with(true), WalkAction::Cancelled));
    assert!(matches!(w.next_with(true), WalkAction::Cancelled));
}

#[test]
fn empty_root_cancelled_before_start() {
    let mut w = Walker::new(Vec::new(), false);
    assert!(matches!(w.next_with(true), WalkAction::Cancelled));
}

#[test]
fn empty_root_completes() {
    let mut w = Walker::new(Vec::new(), false);
    assert!(matches!(w.next_with(false), WalkAction::Done));
}

#[test]
fn exhausted_subdirectory_returns_to_parent() {
    let mut w = Walker::new(vec![dir("/r/empty"), file("/r/last.gif")], false);
    assert!(matches!(w.next_with(false), WalkAction::Descend(_)));
    w.enter(Vec::new());
    assert_eq!(processed_path(&w.next_with(false)), Some("/r/last.gif".to_string()));
    assert!(matches!(w.next_with(false), WalkAction::Done));
}

#[test]
fn no_traverse_skips_directories() {
    let mut w = Walker::new(vec![dir("/r/sub"), file("/r/a.png")], true);
    match w.next_with(false) {
        WalkAction::Skip(p) => assert_eq!(p, "/r/sub"),
        other => panic!("expected skip, got {:?}", other),
    }
    assert_eq!(processed_path(&w.next_with(false)), Some("/r/a.png".to_string()));
    assert!(matches!(w.next_with(false), WalkAction::Done));
}

#[test]
fn token_cancellation() {
    let token = CancellationToken::new();
    let mut w = Walker::new(vec![file("/r/a.jpg"), file("/r/b.jpg")], false);
    assert_eq!(processed_path(&w.next(&token)), Some("/r/a.jpg".to_string()));
    token.cancel();
    assert!(matches!(w.next(&token), WalkAction::Cancelled));
}

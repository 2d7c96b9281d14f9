use rsiv::discovery::{build_tasks, sort_paths, CandidateFile};
use rsiv::events::{change_event, handle_modal_input, process_request, probe_task, AppEvent, InputMode};
use rsiv::format::ImageFormat;
use rsiv::loader::LoadRequest;
use rsiv::probe::ProbeError;
use std::io::Cursor;

fn png_bytes(width: u32, height: u32) -> Vec<u8> {
    let img = image::RgbaImage::from_fn(width, height, |x, y| {
        image::Rgba([(x % 256) as u8, (y % 256) as u8, 3, 255])
    });
    let mut out = Cursor::new(Vec::new());
    img.write_to(&mut out, image::ImageFormat::Png).unwrap();
    out.into_inner()
}

fn fonts() -> resvg::usvg::fontdb::Database {
    resvg::usvg::fontdb::Database::new()
}

fn svg_bytes(width: u32, height: u32) -> Vec<u8> {
    format!(
        "<svg xmlns=\"http://www.w3.org/2000/svg\" width=\"{}\" height=\"{}\"/>",
        width, height
    )
    .into_bytes()
}

#[test]
fn paths_sort_deterministically() {
    let mut paths = vec![
        "dir/zebra.png".to_string(),
        "dir/apple.png".to_string(),
        "a.png".to_string(),
        "dir/mango.png".to_string(),
    ];
    sort_paths(&mut paths);
    assert_eq!(
        paths,
        vec![
            "a.png".to_string(),
            "dir/apple.png".to_string(),
            "dir/mango.png".to_string(),
            "dir/zebra.png".to_string(),
        ]
    );
}

#[test]
fn sorting_keeps_duplicates() {
    let mut paths = vec!["b".to_string(), "a".to_string(), "b".to_string()];
    sort_paths(&mut paths);
    assert_eq!(paths, vec!["a".to_string(), "b".to_string(), "b".to_string()]);
}

#[test]
fn plan_announces_only_recognized_files() {
    // Two valid files among two unrecognized ones: the plan announces
    // exactly two tasks, indexed 0 and 1, with no duplicates or gaps.
    let files = vec![
        CandidateFile { path: "a.png".to_string(), prefix: png_bytes(2, 2) },
        CandidateFile { path: "b.txt".to_string(), prefix: b"hello world".to_vec() },
        CandidateFile { path: "c.svg".to_string(), prefix: svg_bytes(4, 4) },
        CandidateFile { path: "d.bin".to_string(), prefix: vec![0u8; 32] },
    ];
    let tasks = build_tasks(&files);
    assert_eq!(tasks.len(), 2);
    assert_eq!(tasks[0].index, 0);
    assert_eq!(tasks[0].path, "a.png");
    assert_eq!(tasks[0].format, ImageFormat::Static);
    assert_eq!(tasks[1].index, 1);
    assert_eq!(tasks[1].path, "c.svg");
    assert_eq!(tasks[1].format, ImageFormat::Svg);
}

#[test]
fn probe_task_tags_results_with_stable_index() {
    let files = vec![
        CandidateFile { path: "one.png".to_string(), prefix: png_bytes(6, 5) },
    ];
    let tasks = build_tasks(&files);
    match probe_task(&tasks[0], &png_bytes(6, 5)) {
        AppEvent::MetadataLoaded(index, item) => {
            assert_eq!(index, 0);
            assert_eq!(item.path, "one.png");
            assert_eq!((item.width, item.height), (6, 5));
            assert_eq!(item.format, ImageFormat::Static);
        }
        _ => panic!("expected metadata"),
    }
    match probe_task(&tasks[0], &[0u8; 8]) {
        AppEvent::MetadataError(index, e) => {
            assert_eq!(index, 0);
            assert_eq!(e, ProbeError::HeaderUnparsed);
        }
        _ => panic!("expected a metadata error"),
    }
}

#[test]
fn worker_publishes_image_or_error() {
    let req = LoadRequest::LoadImage("p.png".to_string(), ImageFormat::Static);
    match process_request(&req, &png_bytes(3, 3), &fonts()) {
        AppEvent::ImagePixelsLoaded(path, img) => {
            assert_eq!(path, "p.png");
            assert_eq!((img.width, img.height), (3, 3));
        }
        _ => panic!("expected decoded pixels"),
    }
    match process_request(&req, &[1u8; 16], &fonts()) {
        AppEvent::LoadError(path, _) => assert_eq!(path, "p.png"),
        _ => panic!("expected a load error"),
    }
}

#[test]
fn worker_publishes_thumbnail() {
    let req = LoadRequest::LoadThumbnail("q.svg".to_string(), ImageFormat::Svg, 64);
    match process_request(&req, &svg_bytes(200, 100), &fonts()) {
        AppEvent::ThumbnailLoaded(path, thumb) => {
            assert_eq!(path, "q.svg");
            assert_eq!((thumb.width, thumb.height), (64, 32));
        }
        _ => panic!("expected a thumbnail"),
    }
}

#[test]
fn change_events_follow_probe_outcome() {
    match change_event("gone.png", None) {
        Some(AppEvent::FileDeleted(path)) => assert_eq!(path, "gone.png"),
        _ => panic!("expected a deletion"),
    }
    let fresh = png_bytes(7, 9);
    match change_event("fresh.png", Some(&fresh)) {
        Some(AppEvent::FileChanged(item)) => {
            assert_eq!(item.path, "fresh.png");
            assert_eq!((item.width, item.height), (7, 9));
        }
        _ => panic!("expected fresh metadata"),
    }
    let not_an_image = b"some notes".to_vec();
    assert!(change_event("notes.txt", Some(&not_an_image)).is_none());
}

#[test]
fn modal_input_advances_as_configured() {
    let (mode, run) = handle_modal_input(&InputMode::WaitingForHandler, "g", true, false);
    assert!(matches!(mode, InputMode::Normal));
    let run = run.unwrap();
    assert_eq!(run.key, "g");
    assert!(!run.on_marked);

    let (mode, run) = handle_modal_input(&InputMode::WaitingForHandler, "g", true, true);
    match mode {
        InputMode::AwaitingTarget(k) => assert_eq!(k, "g"),
        _ => panic!("expected to await a target"),
    }
    assert!(run.is_none());

    let (mode, run) =
        handle_modal_input(&InputMode::AwaitingTarget("g".to_string()), "m", true, true);
    assert!(matches!(mode, InputMode::Normal));
    let run = run.unwrap();
    assert_eq!(run.key, "g");
    assert!(run.on_marked);

    let (_, run) = handle_modal_input(&InputMode::AwaitingTarget("g".to_string()), "x", true, true);
    assert!(run.is_none());

    let (mode, run) = handle_modal_input(&InputMode::WaitingForHandler, "z", false, false);
    assert!(matches!(mode, InputMode::Normal));
    assert!(run.is_none());
}

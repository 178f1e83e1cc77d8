use photosort::resolver::{
    interpret_output, ExtractionWorkspace, Extraction, ResolveAction, ResolveError,
    ResolveSession,
};
use photosort::timestamp::{destination_for, ExifTime};

fn expect_run(action: ResolveAction) -> String {
    match action {
        ResolveAction::RunExtractor(p) => p,
        _ => panic!("expected an extractor run"),
    }
}

fn expect_list(action: ResolveAction) -> String {
    match action {
        ResolveAction::ListDirectory(p) => p,
        _ => panic!("expected a directory listing"),
    }
}

#[test]
fn interprets_the_three_output_shapes() {
    assert!(matches!(interpret_output(""), Extraction::NoOutput));
    assert!(matches!(interpret_output("2021:05:01 14:30:05"), Extraction::Stamp(_)));
    assert!(matches!(interpret_output("not a stamp"), Extraction::Malformed));
}

#[test]
fn direct_output_resolves_at_once() {
    let (mut s, first) = ResolveSession::begin(String::from("/d/IMG_0001.HEIC"));
    assert_eq!(expect_run(first).as_str(), "/d/IMG_0001.HEIC");
    match s.on_direct_output("2021:05:01 14:30:05") {
        ResolveAction::Resolved(t) => {
            assert_eq!(t, ExifTime { year: 2021, month: 5, day: 1, hour: 14, minute: 30, second: 5 });
        }
        _ => panic!("expected a resolution"),
    }
}

#[test]
fn scenario_sidecar_borrows_sibling_timestamp() {
    // an edit-history sidecar with no timestamp of its own borrows the
    // paired still image's, and its own extension is preserved in the name
    let (mut s, first) = ResolveSession::begin(String::from("/d/IMG_0001.AAE"));
    assert_eq!(expect_run(first).as_str(), "/d/IMG_0001.AAE");
    let listing = expect_list(s.on_direct_output(""));
    assert_eq!(listing.as_str(), "/d/IMG_0001.AAE");
    let entries = vec![
        String::from("/d/IMG_0001.AAE"),
        String::from("/d/IMG_0001.HEIC"),
        String::from("/d/IMG_0002.JPG"),
    ];
    let next = expect_run(s.on_listing(&entries));
    assert_eq!(next.as_str(), "/d/IMG_0001.HEIC");
    let t = match s.on_sibling_output("2021:05:01 14:30:05") {
        ResolveAction::Resolved(t) => t,
        _ => panic!("expected a resolution"),
    };
    let dest = destination_for("/sorted", &t, "AAE");
    assert_eq!(dest.as_str(), "/sorted/2021/05/01/2021-05-01_14.30.05.AAE");
}

#[test]
fn scenario_plain_file_without_timestamp_is_skipped() {
    // a plain photo with empty extractor output has no sibling fallback:
    // it resolves to nothing and is excluded from the plan
    let (mut s, _) = ResolveSession::begin(String::from("/d/photo.jpg"));
    match s.on_direct_output("") {
        ResolveAction::Failed(e) => assert_eq!(e, ResolveError::NotFound),
        _ => panic!("expected a failure"),
    }
}

#[test]
fn malformed_direct_output_is_a_parse_error() {
    let (mut s, _) = ResolveSession::begin(String::from("/d/photo.jpg"));
    match s.on_direct_output("2021:05:01") {
        ResolveAction::Failed(e) => assert_eq!(e, ResolveError::ParseError),
        _ => panic!("expected a failure"),
    }
}

#[test]
fn exhausted_sibling_queue_is_not_found() {
    let (mut s, _) = ResolveSession::begin(String::from("/d/clip.MOV"));
    expect_list(s.on_direct_output(""));
    let entries = vec![
        String::from("/d/clip.MOV"),
        String::from("/d/clip.AAE"),
        String::from("/d/clip.JPG"),
    ];
    let first = expect_run(s.on_listing(&entries));
    assert_eq!(first.as_str(), "/d/clip.AAE");
    let second = expect_run(s.on_sibling_output(""));
    assert_eq!(second.as_str(), "/d/clip.JPG");
    match s.on_sibling_output("") {
        ResolveAction::Failed(e) => assert_eq!(e, ResolveError::NotFound),
        _ => panic!("expected a failure"),
    }
}

#[test]
fn empty_listing_is_not_found() {
    let (mut s, _) = ResolveSession::begin(String::from("/d/clip.MOV"));
    expect_list(s.on_direct_output(""));
    match s.on_listing(&vec![String::from("/d/clip.MOV")]) {
        ResolveAction::Failed(e) => assert_eq!(e, ResolveError::NotFound),
        _ => panic!("expected a failure"),
    }
}

#[test]
fn tool_failure_aborts_resolution() {
    let (mut s, _) = ResolveSession::begin(String::from("/d/photo.jpg"));
    match s.on_tool_failure() {
        ResolveAction::Failed(e) => assert_eq!(e, ResolveError::ToolUnavailable),
        _ => panic!("expected a failure"),
    }
}

#[test]
fn workspace_wipes_every_tenth_call() {
    let mut w = ExtractionWorkspace::new();
    for call in 1u64..=25 {
        let wipe = w.record_call();
        assert_eq!(wipe, call % 10 == 0);
    }
    assert_eq!(w.calls, 25);
}

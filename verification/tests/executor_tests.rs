use photosort::executor::{collect_failures, expand_group, PhotoOp};
use photosort::plan::MoveInfo;
use photosort::sidecar::companions_of;

fn entry(source: &str, dest: &str) -> MoveInfo {
    MoveInfo { source: String::from(source), dest: String::from(dest) }
}

#[test]
fn scenario_group_mirrors_existing_companion() {
    // a live photo with its motion clip on disk: the group holds the primary
    // pair and the companion pair, the companion's destination mirroring the
    // primary's with the companion's extension
    let primary = entry("/d/IMG_0001.HEIC", "/s/2021/05/01/2021-05-01_14.30.05.HEIC");
    let companions = companions_of(primary.source.as_str());
    let pairs = expand_group(&primary, &companions, &vec![true]);
    assert_eq!(pairs.len(), 2);
    assert_eq!(pairs[0].source.as_str(), "/d/IMG_0001.HEIC");
    assert_eq!(pairs[0].dest.as_str(), "/s/2021/05/01/2021-05-01_14.30.05.HEIC");
    assert_eq!(pairs[1].source.as_str(), "/d/IMG_0001.MOV");
    assert_eq!(pairs[1].dest.as_str(), "/s/2021/05/01/2021-05-01_14.30.05.MOV");
}

#[test]
fn missing_companion_is_silently_skipped() {
    let primary = entry("/d/IMG_0001.HEIC", "/s/a.HEIC");
    let companions = companions_of(primary.source.as_str());
    let pairs = expand_group(&primary, &companions, &vec![false]);
    assert_eq!(pairs.len(), 1);
    assert_eq!(pairs[0].source.as_str(), "/d/IMG_0001.HEIC");
}

#[test]
fn plain_file_expands_to_itself() {
    let primary = entry("/d/photo.jpg", "/s/a.jpg");
    let companions = companions_of(primary.source.as_str());
    let pairs = expand_group(&primary, &companions, &Vec::new());
    assert_eq!(pairs.len(), 1);
}

#[test]
fn scenario_one_failure_blocks_nothing() {
    // the middle pair fails; the pairs before and after it are still
    // processed and only the failed one is recorded
    let pairs = vec![
        entry("/d/a.JPG", "/s/1.JPG"),
        entry("/d/b.JPG", "/s/2.JPG"),
        entry("/d/c.JPG", "/s/3.JPG"),
    ];
    let failures = collect_failures(PhotoOp::Move, &pairs, &vec![true, false, true]);
    assert_eq!(failures.len(), 1);
    assert_eq!(failures[0].source.as_str(), "/d/b.JPG");
    assert_eq!(failures[0].dest.as_str(), "/s/2.JPG");
    assert_eq!(failures[0].op, PhotoOp::Move);
}

#[test]
fn all_successes_record_nothing() {
    let pairs = vec![entry("/d/a.JPG", "/s/1.JPG"), entry("/d/b.JPG", "/s/2.JPG")];
    assert_eq!(collect_failures(PhotoOp::Copy, &pairs, &vec![true, true]).len(), 0);
}

#[test]
fn every_failure_is_recorded_in_order() {
    let pairs = vec![entry("/d/a.JPG", "/s/1.JPG"), entry("/d/b.JPG", "/s/2.JPG")];
    let failures = collect_failures(PhotoOp::Remove, &pairs, &vec![false, false]);
    assert_eq!(failures.len(), 2);
    assert_eq!(failures[0].source.as_str(), "/d/a.JPG");
    assert_eq!(failures[1].source.as_str(), "/d/b.JPG");
}

#[test]
fn verbs_have_operator_facing_names() {
    assert_eq!(PhotoOp::Copy.name(), "copy");
    assert_eq!(PhotoOp::Move.name(), "move");
    assert_eq!(PhotoOp::Remove.name(), "remove");
}

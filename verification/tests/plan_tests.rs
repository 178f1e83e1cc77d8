use photosort::plan::{destinations, partition, sort_paths, MoveInfo, ResolvedFile};
use photosort::timestamp::ExifTime;

fn entry(source: &str, dest: &str) -> MoveInfo {
    MoveInfo { source: String::from(source), dest: String::from(dest) }
}

fn stamp(year: u16, month: u8, day: u8, hour: u8, minute: u8, second: u8) -> ExifTime {
    ExifTime { year, month, day, hour, minute, second }
}

#[test]
fn distinct_destinations_are_all_ready() {
    let entries = vec![entry("a.JPG", "/s/1.JPG"), entry("b.JPG", "/s/2.JPG")];
    let plan = partition(&entries, &vec![false, false]);
    assert_eq!(plan.ready.len(), 2);
    assert_eq!(plan.conflicts.len(), 0);
    assert_eq!(plan.ready[0].source.as_str(), "a.JPG");
    assert_eq!(plan.ready[1].source.as_str(), "b.JPG");
}

#[test]
fn second_claim_of_a_destination_conflicts() {
    // two sources whose resolved timestamps agree to the second and share an
    // extension compute the same destination: only the first is ready
    let entries = vec![
        entry("a.JPG", "/s/2021/05/01/2021-05-01_14.30.05.JPG"),
        entry("b.JPG", "/s/2021/05/01/2021-05-01_14.30.05.JPG"),
    ];
    let plan = partition(&entries, &vec![false, false]);
    assert_eq!(plan.ready.len(), 1);
    assert_eq!(plan.conflicts.len(), 1);
    assert_eq!(plan.ready[0].source.as_str(), "a.JPG");
    assert_eq!(plan.conflicts[0].source.as_str(), "b.JPG");
}

#[test]
fn scenario_existing_destination_conflicts() {
    // the computed destination already exists on disk: the entry is routed to
    // the conflict list and nothing is ready to touch its source
    let entries = vec![entry("a.JPG", "/s/1.JPG")];
    let plan = partition(&entries, &vec![true]);
    assert_eq!(plan.ready.len(), 0);
    assert_eq!(plan.conflicts.len(), 1);
    assert_eq!(plan.conflicts[0].source.as_str(), "a.JPG");
}

#[test]
fn partition_keeps_input_order() {
    let entries = vec![
        entry("a.JPG", "/s/1.JPG"),
        entry("b.JPG", "/s/2.JPG"),
        entry("c.JPG", "/s/1.JPG"),
        entry("d.JPG", "/s/3.JPG"),
    ];
    let plan = partition(&entries, &vec![false, true, false, false]);
    let ready: Vec<&str> = plan.ready.iter().map(|e| e.source.as_str()).collect();
    let conflicts: Vec<&str> = plan.conflicts.iter().map(|e| e.source.as_str()).collect();
    assert_eq!(ready, vec!["a.JPG", "d.JPG"]);
    assert_eq!(conflicts, vec!["b.JPG", "c.JPG"]);
}

#[test]
fn rebuilding_an_unchanged_plan_is_identical() {
    let entries = vec![
        entry("a.JPG", "/s/1.JPG"),
        entry("b.JPG", "/s/1.JPG"),
        entry("c.JPG", "/s/2.JPG"),
    ];
    let first = partition(&entries, &vec![false, false, true]);
    let second = partition(&entries, &vec![false, false, true]);
    assert_eq!(first.ready.len(), second.ready.len());
    assert_eq!(first.conflicts.len(), second.conflicts.len());
    for (a, b) in first.ready.iter().zip(second.ready.iter()) {
        assert_eq!(a.source, b.source);
        assert_eq!(a.dest, b.dest);
    }
    for (a, b) in first.conflicts.iter().zip(second.conflicts.iter()) {
        assert_eq!(a.source, b.source);
        assert_eq!(a.dest, b.dest);
    }
}

#[test]
fn destinations_follow_timestamp_and_extension() {
    let files = vec![
        ResolvedFile { source: String::from("/import/IMG_0001.HEIC"), time: stamp(2021, 5, 1, 14, 30, 5) },
        ResolvedFile { source: String::from("/import/clip.MOV"), time: stamp(2020, 1, 2, 3, 4, 5) },
    ];
    let out = destinations("/sorted", &files);
    assert_eq!(out.len(), 2);
    assert_eq!(out[0].source.as_str(), "/import/IMG_0001.HEIC");
    assert_eq!(out[0].dest.as_str(), "/sorted/2021/05/01/2021-05-01_14.30.05.HEIC");
    assert_eq!(out[1].dest.as_str(), "/sorted/2020/01/02/2020-01-02_03.04.05.MOV");
}

#[test]
fn sort_paths_orders_lexicographically() {
    let input = vec![
        String::from("b/IMG_2.JPG"),
        String::from("a/IMG_9.JPG"),
        String::from("a/IMG_10.JPG"),
        String::from("a"),
    ];
    let sorted = sort_paths(&input);
    let got: Vec<&str> = sorted.iter().map(|s| s.as_str()).collect();
    assert_eq!(got, vec!["a", "a/IMG_10.JPG", "a/IMG_9.JPG", "b/IMG_2.JPG"]);
}

#[test]
fn sort_paths_keeps_duplicates() {
    let input = vec![String::from("x"), String::from("x"), String::from("a")];
    let sorted = sort_paths(&input);
    let got: Vec<&str> = sorted.iter().map(|s| s.as_str()).collect();
    assert_eq!(got, vec!["a", "x", "x"]);
}

use photosort::walk::DirWalk;

#[test]
fn walk_collects_files_and_queues_directories() {
    let mut walk = DirWalk::new(String::from("/import"));
    assert!(!walk.is_done());
    let dir = walk.next_dir().expect("the root is pending");
    assert_eq!(dir.as_str(), "/import");

    walk.record_entry(String::from("/import/a.JPG"), false);
    walk.record_entry(String::from("/import/sub"), true);
    walk.record_entry(String::from("/import/b.JPG"), false);
    assert!(!walk.is_done());

    let dir = walk.next_dir().expect("the subdirectory is pending");
    assert_eq!(dir.as_str(), "/import/sub");
    walk.record_entry(String::from("/import/sub/c.JPG"), false);

    assert!(walk.next_dir().is_none());
    assert!(walk.is_done());
    let files: Vec<&str> = walk.files.iter().map(|s| s.as_str()).collect();
    assert_eq!(files, vec!["/import/a.JPG", "/import/b.JPG", "/import/sub/c.JPG"]);
}

use photosort::paths::{extension_of, stem_of_path, with_extension};
use photosort::sidecar::{companions_of, is_proxy_dependent, sibling_candidates};

#[test]
fn live_photo_has_motion_companion() {
    let companions = companions_of("/import/IMG_0001.HEIC");
    assert_eq!(companions.len(), 1);
    assert_eq!(companions[0].as_str(), "/import/IMG_0001.MOV");
}

#[test]
fn plain_photo_has_no_companion() {
    assert_eq!(companions_of("/import/photo.jpg").len(), 0);
    assert_eq!(companions_of("/import/clip.MOV").len(), 0);
    // the policy is case-exact, as the fallback extensions are
    assert_eq!(companions_of("/import/photo.heic").len(), 0);
}

#[test]
fn proxy_dependent_extensions() {
    assert!(is_proxy_dependent("AAE"));
    assert!(is_proxy_dependent("MOV"));
    assert!(!is_proxy_dependent("JPG"));
    assert!(!is_proxy_dependent("mov"));
    assert!(!is_proxy_dependent(""));
}

#[test]
fn siblings_share_the_stem_with_another_extension() {
    let entries = vec![
        String::from("/d/IMG_0001.AAE"),
        String::from("/d/IMG_0001.HEIC"),
        String::from("/d/IMG_0002.JPG"),
        String::from("/d/IMG_0001"),
        String::from("/d/IMG_0001.MOV"),
    ];
    let cands = sibling_candidates("/d/IMG_0001.AAE", &entries);
    let got: Vec<&str> = cands.iter().map(|s| s.as_str()).collect();
    // the file itself and entries without an extension are excluded;
    // listing order is kept
    assert_eq!(got, vec!["/d/IMG_0001.HEIC", "/d/IMG_0001.MOV"]);
}

#[test]
fn no_sibling_matches_a_lonely_stem() {
    let entries = vec![String::from("/d/photo.jpg"), String::from("/d/other.jpg")];
    assert_eq!(sibling_candidates("/d/photo.jpg", &entries).len(), 0);
}

#[test]
fn extension_of_splits_at_the_last_dot() {
    assert_eq!(extension_of("/d/a.tar.gz").as_deref(), Some("gz"));
    assert_eq!(extension_of("/d/a.JPG").as_deref(), Some("JPG"));
    assert_eq!(extension_of("/d/noext"), None);
    assert_eq!(extension_of("/d.dir/noext"), None);
    assert_eq!(extension_of("/d/.hidden"), None);
}

#[test]
fn stem_is_the_name_without_extension() {
    assert_eq!(stem_of_path("/d/a.tar.gz").as_str(), "a.tar");
    assert_eq!(stem_of_path("/d/noext").as_str(), "noext");
    assert_eq!(stem_of_path("/d/.hidden").as_str(), ".hidden");
}

#[test]
fn with_extension_replaces_or_appends() {
    assert_eq!(with_extension("/s/2021/a.HEIC", "MOV").as_str(), "/s/2021/a.MOV");
    assert_eq!(with_extension("/s/2021/a", "MOV").as_str(), "/s/2021/a.MOV");
}

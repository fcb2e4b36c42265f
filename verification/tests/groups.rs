use dejavu::duplicate_group::DuplicateGroup;
use dejavu::file_info::{FileInfo, ImageFormat, MediaType};

fn record(path: &str, size: u64, modified: u64) -> FileInfo {
    FileInfo::new(
        String::from(path),
        size,
        modified,
        MediaType::Image(ImageFormat::Png),
    )
}

#[test]
fn earliest_modified_wins_in_any_order() {
    // Records with t1 < t2 < t3: the t1 record is the original wherever
    // it stands in the list.
    let a = || record("/gallery/alpha.png", 10, 100);
    let b = || record("/gallery/beta.png", 20, 200);
    let c = || record("/gallery/gamma.png", 30, 300);
    let orders: Vec<Vec<FileInfo>> = vec![
        vec![a(), b(), c()],
        vec![b(), a(), c()],
        vec![c(), b(), a()],
        vec![b(), c(), a()],
    ];
    for files in orders {
        let g = DuplicateGroup::new(0, files);
        assert_eq!(g.files[g.recommended_original].path, "/gallery/alpha.png");
    }
}

#[test]
fn equal_times_prefer_shorter_path() {
    let files = vec![
        record("/gallery/copies/alpha (copy).png", 10, 100),
        record("/gallery/alpha.png", 10, 100),
        record("/gallery/copies/alpha2.png", 10, 100),
    ];
    let g = DuplicateGroup::new(0, files);
    assert_eq!(g.files[g.recommended_original].path, "/gallery/alpha.png");
}

#[test]
fn equal_keys_keep_first_encountered() {
    let files = vec![
        record("/one/a.png", 10, 100),
        record("/two/b.png", 10, 100),
    ];
    let g = DuplicateGroup::new(0, files);
    assert_eq!(g.recommended_original, 0);
}

#[test]
fn wasted_space_identity() {
    let files = vec![
        record("/a/x.png", 700, 2),
        record("/a/y.png", 300, 1),
        record("/a/z.png", 500, 3),
    ];
    let g = DuplicateGroup::new(7, files);
    // The original is the earliest-modified record (size 300).
    assert_eq!(g.recommended_original, 1);
    assert_eq!(g.total_size(), 1500);
    assert_eq!(g.wasted_space(), g.total_size() - g.files[g.recommended_original].size);
    assert_eq!(g.wasted_space(), 1200);
}

#[test]
fn group_builders_set_fingerprints() {
    let files = vec![record("/a/x.png", 1, 1), record("/a/y.png", 1, 2)];
    let g = DuplicateGroup::new(3, files).with_exact_hash(vec![0xab; 32]);
    assert_eq!(g.group_id, 3);
    assert!(g.is_exact_duplicate());
    assert_eq!(g.exact_hash, Some(vec![0xab; 32]));
    assert_eq!(g.perceptual_hash, None);

    let files2 = vec![record("/b/x.png", 1, 1), record("/b/y.png", 1, 2)];
    let g2 = DuplicateGroup::new(0, files2).with_perceptual_hash(0xdead);
    assert!(!g2.is_exact_duplicate());
    assert_eq!(g2.perceptual_hash, Some(0xdead));
    assert_eq!(g2.file_count(), 2);
}

#[test]
fn tie_break_falls_to_component_count() {
    // Same time, same path byte length: fewer path components wins.
    let files = vec![
        record("/aa/bb/c.png", 10, 100),
        record("/aabbb/c.png", 10, 100),
    ];
    assert_eq!(files[0].path.len(), files[1].path.len());
    let g = DuplicateGroup::new(0, files);
    assert_eq!(g.files[g.recommended_original].path, "/aabbb/c.png");
}

#[test]
fn path_length_is_measured_in_bytes() {
    // Equal times; the first path has fewer characters but more UTF-8
    // bytes, so the second is the shorter path string.
    let a = "/d/\u{65e5}.png"; // 8 chars, 10 bytes
    let b = "/d/ab.png"; // 9 chars, 9 bytes
    assert!(a.chars().count() < b.chars().count());
    assert!(a.len() > b.len());
    let files = vec![record(a, 10, 100), record(b, 10, 100)];
    let g = DuplicateGroup::new(0, files);
    assert_eq!(g.files[g.recommended_original].path, b);
}

#[test]
fn lone_dot_components_are_not_counted() {
    // Equal times and byte lengths; "/a/./bb.png" has three path
    // components (the dot is dropped, as the platform's parser reads it)
    // against four, so it wins although it stands second.
    let files = vec![
        record("/a/bc/d.png", 10, 100),
        record("/a/./bb.png", 10, 100),
    ];
    assert_eq!(files[0].path.len(), files[1].path.len());
    let g = DuplicateGroup::new(0, files);
    assert_eq!(g.files[g.recommended_original].path, "/a/./bb.png");
}

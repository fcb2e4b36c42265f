use dejavu::exact_hash::ExactHasher;
use dejavu::file_info::{FileInfo, ImageFormat, MediaType, VideoFormat};
use dejavu::hash_group::HashGrouper;

fn image_record(path: &str, size: u64, modified: u64) -> FileInfo {
    FileInfo::new(
        String::from(path),
        size,
        modified,
        MediaType::Image(ImageFormat::Jpeg),
    )
}

fn paths_of(group: &dejavu::duplicate_group::DuplicateGroup) -> Vec<String> {
    group.files.iter().map(|f| f.path.clone()).collect()
}

#[test]
fn exact_stage_groups_identical_content() {
    // Three byte-identical files and one different: exactly one group of
    // three, the fourth excluded from any group.
    let same: Vec<u8> = b"identical image bytes".to_vec();
    let other: Vec<u8> = b"different image bytes".to_vec();
    let files = vec![
        image_record("/pics/f1.jpg", 21, 100),
        image_record("/pics/f2.jpg", 21, 200),
        image_record("/pics/f3.jpg", 21, 300),
        image_record("/pics/f4.jpg", 21, 400),
    ];
    let digests = vec![
        Some(ExactHasher::compute_hash(&same)),
        Some(ExactHasher::compute_hash(&same)),
        Some(ExactHasher::compute_hash(&same)),
        Some(ExactHasher::compute_hash(&other)),
    ];
    let grouper = HashGrouper::new(5);
    let groups = grouper.group_by_exact_hash(&files, &digests);
    assert_eq!(groups.len(), 1);
    assert_eq!(groups[0].group_id, 0);
    assert_eq!(groups[0].file_count(), 3);
    assert!(groups[0].is_exact_duplicate());
    assert_eq!(
        paths_of(&groups[0]),
        vec!["/pics/f1.jpg", "/pics/f2.jpg", "/pics/f3.jpg"]
    );
    assert_eq!(
        groups[0].exact_hash.as_ref().unwrap(),
        &ExactHasher::compute_hash(&same)
    );
}

#[test]
fn exact_grouping_membership_ignores_input_order() {
    // The same multiset of contents in two orders: the partition of
    // paths into groups is the same, whatever ids the groups get.
    let ca: Vec<u8> = b"content alpha".to_vec();
    let cb: Vec<u8> = b"content beta".to_vec();
    let records = vec![
        ("/a1.jpg", &ca),
        ("/a2.jpg", &ca),
        ("/b1.jpg", &cb),
        ("/b2.jpg", &cb),
    ];
    let mut shuffled = records.clone();
    shuffled.reverse();

    let run = |recs: &[(&str, &Vec<u8>)]| -> Vec<Vec<String>> {
        let files: Vec<FileInfo> =
            recs.iter().map(|(p, _)| image_record(p, 1, 1)).collect();
        let digests: Vec<Option<Vec<u8>>> = recs
            .iter()
            .map(|(_, c)| Some(ExactHasher::compute_hash(c)))
            .collect();
        let grouper = HashGrouper::new(5);
        let groups = grouper.group_by_exact_hash(&files, &digests);
        let mut partition: Vec<Vec<String>> = groups
            .iter()
            .map(|g| {
                let mut ps = paths_of(g);
                ps.sort();
                ps
            })
            .collect();
        partition.sort();
        partition
    };
    assert_eq!(run(&records), run(&shuffled));
}

#[test]
fn failed_digests_take_no_part() {
    let c: Vec<u8> = b"some content".to_vec();
    let files = vec![
        image_record("/x1.jpg", 1, 1),
        image_record("/x2.jpg", 1, 1),
        image_record("/x3.jpg", 1, 1),
    ];
    // The second record failed to fingerprint: only the other two group.
    let digests = vec![
        Some(ExactHasher::compute_hash(&c)),
        None,
        Some(ExactHasher::compute_hash(&c)),
    ];
    let grouper = HashGrouper::new(5);
    let groups = grouper.group_by_exact_hash(&files, &digests);
    assert_eq!(groups.len(), 1);
    assert_eq!(paths_of(&groups[0]), vec!["/x1.jpg", "/x3.jpg"]);
}

#[test]
fn no_group_smaller_than_two() {
    let files = vec![
        image_record("/u1.jpg", 1, 1),
        image_record("/u2.jpg", 1, 1),
        image_record("/u3.jpg", 1, 1),
    ];
    let digests = vec![
        Some(ExactHasher::compute_hash(&b"one".to_vec())),
        Some(ExactHasher::compute_hash(&b"two".to_vec())),
        Some(ExactHasher::compute_hash(&b"one".to_vec())),
    ];
    let grouper = HashGrouper::new(5);
    for g in grouper.group_by_exact_hash(&files, &digests) {
        assert!(g.file_count() >= 2);
    }
    let fps = vec![Some(0b00u64), Some(0b01), Some(0b11)];
    for g in grouper.find_similar_images(&files, &fps) {
        assert!(g.file_count() >= 2);
    }
}

#[test]
fn find_duplicates_runs_the_exact_stage() {
    let c: Vec<u8> = b"twin".to_vec();
    let files = vec![image_record("/t1.jpg", 4, 1), image_record("/t2.jpg", 4, 2)];
    let digests = vec![
        Some(ExactHasher::compute_hash(&c)),
        Some(ExactHasher::compute_hash(&c)),
    ];
    let grouper = HashGrouper::new(5);
    let groups = grouper.find_duplicates(&files, &digests);
    assert_eq!(groups.len(), 1);
    assert_eq!(groups[0].file_count(), 2);
    assert!(groups[0].is_exact_duplicate());
}

#[test]
fn clustering_is_order_sensitive() {
    // a ~ b and b ~ c but not a ~ c (threshold 1): with a first, c is
    // compared against the head a and left out; with b first, one
    // cluster takes all three.  This order dependence is the documented
    // behavior of the greedy single-link scan, not a defect.
    let fa: u64 = 0b00;
    let fb: u64 = 0b01;
    let fc: u64 = 0b11;
    let files = vec![
        image_record("/i0.jpg", 1, 1),
        image_record("/i1.jpg", 1, 1),
        image_record("/i2.jpg", 1, 1),
    ];
    let grouper = HashGrouper::new(1);

    let order_abc = grouper.find_similar_images(&files, &vec![Some(fa), Some(fb), Some(fc)]);
    assert_eq!(order_abc.len(), 1);
    assert_eq!(paths_of(&order_abc[0]), vec!["/i0.jpg", "/i1.jpg"]);
    assert_eq!(order_abc[0].perceptual_hash, Some(fa));
    assert!(!order_abc[0].is_exact_duplicate());

    let order_bac = grouper.find_similar_images(&files, &vec![Some(fb), Some(fa), Some(fc)]);
    assert_eq!(order_bac.len(), 1);
    assert_eq!(
        paths_of(&order_bac[0]),
        vec!["/i0.jpg", "/i1.jpg", "/i2.jpg"]
    );
    assert_eq!(order_bac[0].perceptual_hash, Some(fb));
}

#[test]
fn non_images_never_cluster() {
    let video = |p: &str| {
        FileInfo::new(String::from(p), 1, 1, MediaType::Video(VideoFormat::Mp4))
    };
    // Two videos with the sentinel fingerprint and one image: nothing
    // groups, however similar the sentinels look.
    let files = vec![video("/v1.mp4"), video("/v2.mp4"), image_record("/i.jpg", 1, 1)];
    let fps = vec![Some(0u64), Some(0u64), Some(0u64)];
    let grouper = HashGrouper::new(5);
    let groups = grouper.find_similar_images(&files, &fps);
    assert!(groups.is_empty());
}

#[test]
fn records_without_fingerprint_never_cluster() {
    let files = vec![
        image_record("/d1.jpg", 1, 1),
        image_record("/d2.jpg", 1, 1),
        image_record("/d3.jpg", 1, 1),
    ];
    // Decode failed for the middle record.
    let fps = vec![Some(7u64), None, Some(7u64)];
    let grouper = HashGrouper::new(0);
    let groups = grouper.find_similar_images(&files, &fps);
    assert_eq!(groups.len(), 1);
    assert_eq!(paths_of(&groups[0]), vec!["/d1.jpg", "/d3.jpg"]);
}

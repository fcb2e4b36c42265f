use dejavu::file_collector::FileCollector;
use dejavu::file_info::{FileInfo, ImageFormat, MediaType, VideoFormat};
use dejavu::format::format_size;
use dejavu::media_filter::MediaFilter;

#[test]
fn filename_and_extension() {
    let f = FileInfo::new(
        String::from("/photos/2021/trip.final.JPG"),
        5,
        7,
        MediaType::Image(ImageFormat::Jpeg),
    );
    assert_eq!(f.filename(), "trip.final.JPG");
    assert_eq!(f.extension(), "JPG");
    assert!(f.is_image());
    assert!(!f.is_video());

    let bare = FileInfo::new(String::from("noext"), 1, 1, MediaType::Video(VideoFormat::Mkv));
    assert_eq!(bare.filename(), "noext");
    assert_eq!(bare.extension(), "");
    assert!(bare.is_video());

    let slashy = FileInfo::new(String::from("/a/b/"), 1, 1, MediaType::Image(ImageFormat::Png));
    assert_eq!(slashy.filename(), "Unknown");

    let dotfile = FileInfo::new(String::from("/home/.bashrc"), 1, 1, MediaType::Image(ImageFormat::Png));
    assert_eq!(dotfile.extension(), "");
}

#[test]
fn media_filter_matches_extensions_blind_to_case() {
    let all = MediaFilter::all();
    assert!(all.is_media_file("/p/a.jpg"));
    assert!(all.is_media_file("/p/a.JPEG"));
    assert!(all.is_media_file("/p/a.Png"));
    assert!(all.is_media_file("/p/v.mp4"));
    assert!(all.is_media_file("/p/v.WebM"));
    assert!(!all.is_media_file("/p/a.txt"));
    assert!(!all.is_media_file("/p/noext"));
}

#[test]
fn media_filter_respects_enabled_kinds() {
    let images_only = MediaFilter::new(true, false);
    assert!(images_only.is_media_file("/p/a.gif"));
    assert!(!images_only.is_media_file("/p/v.mov"));
    let videos_only = MediaFilter::new(false, true);
    assert!(!videos_only.is_media_file("/p/a.gif"));
    assert!(videos_only.is_media_file("/p/v.mov"));
}

#[test]
fn media_type_parses_formats() {
    let all = MediaFilter::all();
    assert_eq!(all.get_media_type("/p/a.tiff"), Some(MediaType::Image(ImageFormat::Tiff)));
    assert_eq!(all.get_media_type("/p/a.tif"), Some(MediaType::Image(ImageFormat::Tiff)));
    assert_eq!(all.get_media_type("/p/v.mkv"), Some(MediaType::Video(VideoFormat::Mkv)));
    assert_eq!(all.get_media_type("/p/x.doc"), None);
    assert_eq!(all.parse_image_format("webp"), Some(ImageFormat::Webp));
    assert_eq!(all.parse_video_format("avi"), Some(VideoFormat::Avi));
    assert_eq!(all.parse_image_format("mp4"), None);
}

#[test]
fn collector_takes_large_media_files_only() {
    let collector = FileCollector::new(MediaFilter::all(), 1024);
    // A directory is never a record.
    assert!(collector.process_entry("/p/dir.jpg", 4096, 1, true).is_none());
    // Too small.
    assert!(collector.process_entry("/p/small.jpg", 1023, 1, false).is_none());
    // Not media.
    assert!(collector.process_entry("/p/notes.txt", 4096, 1, false).is_none());
    // A media file of sufficient size becomes a record.
    let f = collector.process_entry("/p/keep.jpg", 2048, 55, false).unwrap();
    assert_eq!(f.path, "/p/keep.jpg");
    assert_eq!(f.size, 2048);
    assert_eq!(f.modified, 55);
    assert_eq!(f.file_type, MediaType::Image(ImageFormat::Jpeg));
    assert_eq!(f.dimensions, None);
    assert_eq!(f.duration, None);
}

#[test]
fn format_size_picks_the_largest_unit() {
    assert_eq!(format_size(0), "0 B");
    assert_eq!(format_size(512), "512 B");
    assert_eq!(format_size(1023), "1023 B");
    assert_eq!(format_size(1024), "1.0 KB");
    assert_eq!(format_size(1536), "1.5 KB");
    assert_eq!(format_size(1048576), "1.0 MB");
    assert_eq!(format_size(1610612736), "1.5 GB");
}

#[test]
fn format_size_rounds_ties_to_even() {
    // 1280 B is exactly 1.25 KB: the tie falls to the even tenth, 1.2.
    assert_eq!(format_size(1280), "1.2 KB");
    // 1792 B is exactly 1.75 KB: the tie falls to the even tenth, 1.8.
    assert_eq!(format_size(1792), "1.8 KB");
    // Off-tie values round to nearest as usual.
    assert_eq!(format_size(1331), "1.3 KB");
}

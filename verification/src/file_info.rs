//! File records and their media classification.
//!
//! A record carries what the engine reads of a file: its absolute path as
//! text, its size in bytes, its last-modified time as seconds, and its media
//! kind.  Records are built once by the scanning side and cloned, never
//! mutated, by the engine.

use vstd::prelude::*;

use crate::strutil::suffix_after_last;
use crate::strutil::suffix_after_last_char;
use crate::strutil::rfind_char;
use crate::strutil::lemma_suffix_at;

verus! {

/// Media kind of a supported file.
#[derive(Clone, Copy, PartialEq, Eq, Structural, Debug)]
pub enum MediaType {
    /// An image file of a specific format.
    Image(ImageFormat),
    /// A video file of a specific format.
    Video(VideoFormat),
}

/// Supported image file formats.
#[derive(Clone, Copy, PartialEq, Eq, Structural, Debug)]
pub enum ImageFormat {
    Jpeg,
    Png,
    Gif,
    Webp,
    Bmp,
    Tiff,
}

/// Supported video file formats.
#[derive(Clone, Copy, PartialEq, Eq, Structural, Debug)]
pub enum VideoFormat {
    Mp4,
    Mov,
    Avi,
    Mkv,
    Webm,
}

/// A media file as the engine sees it.
pub struct FileInfo {
    /// Absolute path of the file, as text.
    pub path: String,
    /// File size in bytes.
    pub size: u64,
    /// Last-modified time, in seconds since an arbitrary fixed origin.
    pub modified: u64,
    /// Media kind.
    pub file_type: MediaType,
    /// Image dimensions (width, height), when known.
    pub dimensions: Option<(u32, u32)>,
    /// Video duration in seconds, when known.
    pub duration: Option<u64>,
}

/// The file-name part of a path: the characters after the last `/`, or
/// `"Unknown"` when that part is empty.
///
/// This reads a separator-terminated path such as `"a/b/"` as having no
/// file name, where the platform's path API would skip the trailing
/// separator and report `"b"`.  The difference is deliberate: the scanner
/// only ever hands over paths of plain files, which never end in a
/// separator.
pub open spec fn spec_filename(path: Seq<char>) -> Seq<char> {
    let name = suffix_after_last(path, '/');
    if name.len() == 0 {
        "Unknown"@
    } else {
        name
    }
}

/// The extension of a path: the characters of the file-name part after its
/// last `.`, when that `.` stands after the first character; empty
/// otherwise.
///
/// As with [`spec_filename`], a separator-terminated path is read as
/// having no file name and so no extension; such paths never reach the
/// engine.
pub open spec fn spec_extension(path: Seq<char>) -> Seq<char> {
    let name = suffix_after_last(path, '/');
    if exists|k: int| 0 < k < name.len() && name[k] == '.' {
        suffix_after_last(name, '.')
    } else {
        Seq::empty()
    }
}

/// The extension of a path text; empty when there is none.
pub fn extension_of(path: &str) -> (r: &str)
    ensures
        r@ == spec_extension(path@),
{
    let name = suffix_after_last_char(path, '/');
    let n = name.unicode_len();
    match rfind_char(name, '.') {
        Some(i) => {
            if i > 0 {
                proof {
                    lemma_suffix_at(name@, '.', i as int);
                }
                name.substring_char(i + 1, n)
            } else {
                proof {
                    assert(forall|k: int| 0 < k < name@.len() ==> name@[k] != '.');
                    reveal_strlit("");
                }
                ""
            }
        },
        None => {
            proof {
                reveal_strlit("");
            }
            ""
        },
    }
}

impl FileInfo {
    /// Build a record; dimensions and duration start unknown.
    pub fn new(path: String, size: u64, modified: u64, file_type: MediaType) -> (r: FileInfo)
        ensures
            r.path@ == path@,
            r.size == size,
            r.modified == modified,
            r.file_type == file_type,
            r.dimensions is None,
            r.duration is None,
    {
        FileInfo { path, size, modified, file_type, dimensions: None, duration: None }
    }

    /// The file name without its directories; `"Unknown"` when the path
    /// ends in a separator or is empty.
    pub fn filename(&self) -> (r: &str)
        ensures
            r@ == spec_filename(self.path@),
    {
        let name = suffix_after_last_char(self.path.as_str(), '/');
        if name.unicode_len() == 0 {
            "Unknown"
        } else {
            name
        }
    }

    /// The extension of the file name; empty when there is none.
    pub fn extension(&self) -> (r: &str)
        ensures
            r@ == spec_extension(self.path@),
    {
        extension_of(self.path.as_str())
    }

    /// Whether the record is an image.
    pub fn is_image(&self) -> (r: bool)
        ensures
            r == (self.file_type is Image),
    {
        match self.file_type {
            MediaType::Image(_) => true,
            MediaType::Video(_) => false,
        }
    }

    /// Whether the record is a video.
    pub fn is_video(&self) -> (r: bool)
        ensures
            r == (self.file_type is Video),
    {
        match self.file_type {
            MediaType::Video(_) => true,
            MediaType::Image(_) => false,
        }
    }
}

impl Clone for FileInfo {
    /// A clone keeps every field.
    fn clone(&self) -> (r: Self)
        ensures
            r == *self,
    {
        FileInfo {
            path: self.path.clone(),
            size: self.size,
            modified: self.modified,
            file_type: self.file_type,
            dimensions: self.dimensions,
            duration: self.duration,
        }
    }
}

} // verus!

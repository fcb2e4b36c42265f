//! The decision of which scanned entries become file records.
//!
//! Walking the directory tree and reading metadata happen outside this
//! crate; each entry's path, size, modification time and kind come here as
//! plain values, and the collector decides whether the entry is a media
//! file worth keeping.

use vstd::prelude::*;

use crate::file_info::FileInfo;
use crate::media_filter::MediaFilter;
use crate::media_filter::spec_media_type;

verus! {

/// Accepts media files of an enabled kind that are at least `min_size`
/// bytes.
pub struct FileCollector {
    /// Which media kinds are taken.
    pub filter: MediaFilter,
    /// Smallest file size, in bytes, still taken.
    pub min_size: u64,
}

impl FileCollector {
    /// A collector over the given filter and size floor.
    pub fn new(filter: MediaFilter, min_size: u64) -> (r: Self)
        ensures
            r.filter == filter,
            r.min_size == min_size,
    {
        FileCollector { filter, min_size }
    }

    /// Judges one directory entry: a record for a media file of an
    /// enabled kind and sufficient size, nothing otherwise.
    pub fn process_entry(&self, path: &str, size: u64, modified: u64, is_dir: bool) -> (r: Option<
        FileInfo,
    >)
        ensures
            r is Some <==> !is_dir && spec_media_type(self.filter, path@) is Some && size
                >= self.min_size,
            r matches Some(f) ==> {
                &&& f.path@ == path@
                &&& f.size == size
                &&& f.modified == modified
                &&& Some(f.file_type) == spec_media_type(self.filter, path@)
                &&& f.dimensions is None
                &&& f.duration is None
            },
    {
        if is_dir {
            return None;
        }
        if !self.filter.is_media_file(path) {
            return None;
        }
        if size < self.min_size {
            return None;
        }
        match self.filter.get_media_type(path) {
            Some(media_type) => Some(
                FileInfo::new(String::from_str(path), size, modified, media_type),
            ),
            None => None,
        }
    }
}

} // verus!

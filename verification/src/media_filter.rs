//! Classification of files as supported media, by extension.

use vstd::prelude::*;

use crate::file_info::ImageFormat;
use crate::file_info::MediaType;
use crate::file_info::VideoFormat;
use crate::file_info::spec_extension;
use crate::file_info::extension_of;
use crate::strutil::lower_seq;
use crate::strutil::eq_lowered;

verus! {

/// The image format a file extension names, blind to ASCII case; nothing
/// for an unsupported extension.
pub open spec fn image_format_of(e: Seq<char>) -> Option<ImageFormat> {
    let le = lower_seq(e);
    if le == "jpg"@ || le == "jpeg"@ {
        Some(ImageFormat::Jpeg)
    } else if le == "png"@ {
        Some(ImageFormat::Png)
    } else if le == "gif"@ {
        Some(ImageFormat::Gif)
    } else if le == "webp"@ {
        Some(ImageFormat::Webp)
    } else if le == "bmp"@ {
        Some(ImageFormat::Bmp)
    } else if le == "tif"@ || le == "tiff"@ {
        Some(ImageFormat::Tiff)
    } else {
        None
    }
}

/// The video format a file extension names, blind to ASCII case; nothing
/// for an unsupported extension.
pub open spec fn video_format_of(e: Seq<char>) -> Option<VideoFormat> {
    let le = lower_seq(e);
    if le == "mp4"@ {
        Some(VideoFormat::Mp4)
    } else if le == "mov"@ {
        Some(VideoFormat::Mov)
    } else if le == "avi"@ {
        Some(VideoFormat::Avi)
    } else if le == "mkv"@ {
        Some(VideoFormat::Mkv)
    } else if le == "webm"@ {
        Some(VideoFormat::Webm)
    } else {
        None
    }
}

/// The media type the filter assigns to a path: images are consulted
/// first, then videos, each only when enabled.
pub open spec fn spec_media_type(f: MediaFilter, path: Seq<char>) -> Option<MediaType> {
    let e = spec_extension(path);
    if f.images_enabled && image_format_of(e) is Some {
        Some(MediaType::Image(image_format_of(e)->0))
    } else if f.videos_enabled && video_format_of(e) is Some {
        Some(MediaType::Video(video_format_of(e)->0))
    } else {
        None
    }
}

/// Decides which files count as media, and of which kind, from their
/// extension.
#[derive(Clone, Copy, PartialEq, Eq, Structural, Debug)]
pub struct MediaFilter {
    /// Whether image files are taken.
    pub images_enabled: bool,
    /// Whether video files are taken.
    pub videos_enabled: bool,
}

impl MediaFilter {
    /// A filter taking the chosen media kinds.
    pub fn new(images_enabled: bool, videos_enabled: bool) -> (r: Self)
        ensures
            r.images_enabled == images_enabled,
            r.videos_enabled == videos_enabled,
    {
        MediaFilter { images_enabled, videos_enabled }
    }

    /// A filter taking every media kind.
    pub fn all() -> (r: Self)
        ensures
            r.images_enabled,
            r.videos_enabled,
    {
        MediaFilter { images_enabled: true, videos_enabled: true }
    }

    /// Whether the extension names a supported image format.
    pub fn is_image_ext(&self, ext: &str) -> (r: bool)
        ensures
            r == (image_format_of(ext@) is Some),
    {
        eq_lowered(ext, "jpg") || eq_lowered(ext, "jpeg") || eq_lowered(ext, "png") || eq_lowered(
            ext,
            "gif",
        ) || eq_lowered(ext, "webp") || eq_lowered(ext, "bmp") || eq_lowered(ext, "tif")
            || eq_lowered(ext, "tiff")
    }

    /// Whether the extension names a supported video format.
    pub fn is_video_ext(&self, ext: &str) -> (r: bool)
        ensures
            r == (video_format_of(ext@) is Some),
    {
        eq_lowered(ext, "mp4") || eq_lowered(ext, "mov") || eq_lowered(ext, "avi") || eq_lowered(
            ext,
            "mkv",
        ) || eq_lowered(ext, "webm")
    }

    /// Whether the path names a supported media file of an enabled kind.
    pub fn is_media_file(&self, path: &str) -> (r: bool)
        ensures
            r == (spec_media_type(*self, path@) is Some),
    {
        let ext = extension_of(path);
        self.images_enabled && self.is_image_ext(ext) || self.videos_enabled && self.is_video_ext(
            ext,
        )
    }

    /// The image format of an extension, when it names one.
    pub fn parse_image_format(&self, ext: &str) -> (r: Option<ImageFormat>)
        ensures
            r == image_format_of(ext@),
    {
        if eq_lowered(ext, "jpg") || eq_lowered(ext, "jpeg") {
            Some(ImageFormat::Jpeg)
        } else if eq_lowered(ext, "png") {
            Some(ImageFormat::Png)
        } else if eq_lowered(ext, "gif") {
            Some(ImageFormat::Gif)
        } else if eq_lowered(ext, "webp") {
            Some(ImageFormat::Webp)
        } else if eq_lowered(ext, "bmp") {
            Some(ImageFormat::Bmp)
        } else if eq_lowered(ext, "tif") || eq_lowered(ext, "tiff") {
            Some(ImageFormat::Tiff)
        } else {
            None
        }
    }

    /// The video format of an extension, when it names one.
    pub fn parse_video_format(&self, ext: &str) -> (r: Option<VideoFormat>)
        ensures
            r == video_format_of(ext@),
    {
        if eq_lowered(ext, "mp4") {
            Some(VideoFormat::Mp4)
        } else if eq_lowered(ext, "mov") {
            Some(VideoFormat::Mov)
        } else if eq_lowered(ext, "avi") {
            Some(VideoFormat::Avi)
        } else if eq_lowered(ext, "mkv") {
            Some(VideoFormat::Mkv)
        } else if eq_lowered(ext, "webm") {
            Some(VideoFormat::Webm)
        } else {
            None
        }
    }

    /// The media type of a path: its extension parsed as an image format
    /// first, then as a video format, each only when enabled.
    pub fn get_media_type(&self, path: &str) -> (r: Option<MediaType>)
        ensures
            r == spec_media_type(*self, path@),
    {
        let ext = extension_of(path);
        if self.images_enabled {
            if let Some(format) = self.parse_image_format(ext) {
                return Some(MediaType::Image(format));
            }
        }
        if self.videos_enabled {
            if let Some(format) = self.parse_video_format(ext) {
                return Some(MediaType::Video(format));
            }
        }
        None
    }
}

} // verus!

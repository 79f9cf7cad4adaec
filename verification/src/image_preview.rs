//! Image previews: the format a file name announces and the dimensions a
//! PNG header records.
use vstd::prelude::*;
use crate::text::{lowercase, to_lowercase, text_eq};
use crate::debug_ui::path_file_name;

verus! {

#[derive(Debug, Clone, Copy, PartialEq, Eq, Structural)]
pub enum ImageFormat {
    Png,
    Jpeg,
    Gif,
    Svg,
    Unknown,
}

#[derive(Debug, Clone, Copy)]
pub struct ImageInfo {
    pub format: ImageFormat,
    pub width: u32,
    pub height: u32,
    pub size_bytes: u64,
}

/// The position of the last `.` in `n` below `end`.
pub open spec fn last_dot(n: Seq<char>, end: int) -> Option<int>
    decreases end,
{
    if end <= 0 || end > n.len() {
        None
    } else if n[end - 1] == '.' {
        Some(end - 1)
    } else {
        last_dot(n, end - 1)
    }
}

/// The extension of a file name, as `std::path::Path::extension` documents
/// it: none without an embedded `.`, none when the only `.` opens the name,
/// otherwise what follows the last `.`.
pub open spec fn name_extension(n: Seq<char>) -> Option<Seq<char>> {
    match last_dot(n, n.len() as int) {
        Some(k) => if k == 0 {
            None
        } else {
            Some(n.skip(k + 1))
        },
        None => None,
    }
}

/// The extension `std::path::Path::extension` finds in a path: none when
/// the path has no file name, otherwise that of its file name.
pub open spec fn path_extension(path: Seq<char>) -> Option<Seq<char>> {
    match path_file_name(path) {
        Some(n) => name_extension(n),
        None => None,
    }
}

/// `Path::new(path).extension()`, turned back into a string (a path made
/// from a `&str` is valid UTF-8, so `to_str` always succeeds).  Its result
/// is [`path_extension`]: the extension the documentation of
/// `Path::extension` describes, of the file name `Path::file_name` finds.
#[verifier::external_body]
fn extension_of(path: &str) -> (r: Option<String>)
    ensures
        match r {
            Some(e) => path_extension(path@) == Some(e@),
            None => path_extension(path@) is None,
        },
{
    std::path::Path::new(path).extension().and_then(|e| e.to_str()).map(|e| e.to_owned())
}

/// The format an extension (compared case-insensitively) stands for.
pub open spec fn format_of_extension(ext: Option<Seq<char>>) -> ImageFormat {
    match ext {
        Some(e) => {
            let l = lowercase(e);
            if l == "png"@ {
                ImageFormat::Png
            } else if l == "jpg"@ || l == "jpeg"@ {
                ImageFormat::Jpeg
            } else if l == "gif"@ {
                ImageFormat::Gif
            } else if l == "svg"@ {
                ImageFormat::Svg
            } else {
                ImageFormat::Unknown
            }
        },
        None => ImageFormat::Unknown,
    }
}

/// The format for a file extension, if the path has one.
pub fn format_from_extension(ext: Option<&str>) -> (r: ImageFormat)
    ensures
        r == format_of_extension(
            match ext {
                Some(e) => Some(e@),
                None => None,
            },
        ),
{
    match ext {
        Some(e) => {
            let l = to_lowercase(e);
            let s = l.as_str();
            if text_eq(s, "png") {
                ImageFormat::Png
            } else if text_eq(s, "jpg") || text_eq(s, "jpeg") {
                ImageFormat::Jpeg
            } else if text_eq(s, "gif") {
                ImageFormat::Gif
            } else if text_eq(s, "svg") {
                ImageFormat::Svg
            } else {
                ImageFormat::Unknown
            }
        },
        None => ImageFormat::Unknown,
    }
}

/// The format a path's extension announces.
pub fn detect_format(path: &str) -> (r: ImageFormat)
    ensures
        r == format_of_extension(path_extension(path@)),
{
    match extension_of(path) {
        Some(e) => format_from_extension(Some(e.as_str())),
        None => format_from_extension(None),
    }
}

/// The big-endian `u32` in bytes `i .. i + 4`.
pub open spec fn be_u32(b: Seq<u8>, i: int) -> int {
    b[i] * 0x1000000 + b[i + 1] * 0x10000 + b[i + 2] * 0x100 + b[i + 3]
}

pub open spec fn png_signature() -> Seq<u8> {
    seq![0x89u8, 0x50u8, 0x4Eu8, 0x47u8, 0x0Du8, 0x0Au8, 0x1Au8, 0x0Au8]
}

/// Width and height from the first bytes of a file: a PNG's IHDR records
/// them big-endian at offsets 16 and 20, right after the signature; any
/// other content gives zero for both.
pub open spec fn header_dimensions(format: ImageFormat, header: Seq<u8>) -> (int, int) {
    if format == ImageFormat::Png && header.subrange(0, 8) == png_signature() {
        (be_u32(header, 16), be_u32(header, 20))
    } else {
        (0, 0)
    }
}

fn read_be_u32(b: &[u8], i: usize) -> (r: u32)
    requires
        i + 4 <= b@.len(),
    ensures
        r == be_u32(b@, i as int),
{
    let v = (b[i] as u32) * 0x1000000 + (b[i + 1] as u32) * 0x10000 + (b[i + 2] as u32) * 0x100
        + (b[i + 3] as u32);
    v
}

/// The description of an image file from its format, the first 32 bytes
/// read from it (zero where the file is shorter or could not be read) and
/// its size.
pub fn info_from_header(format: ImageFormat, header: &[u8], size_bytes: u64) -> (r: ImageInfo)
    requires
        header@.len() == 32,
    ensures
        r.format == format,
        r.size_bytes == size_bytes,
        (r.width as int, r.height as int) == header_dimensions(format, header@),
{
    let sig: [u8; 8] = [0x89, 0x50, 0x4E, 0x47, 0x0D, 0x0A, 0x1A, 0x0A];
    let mut matches = true;
    let mut k: usize = 0;
    while k < 8
        invariant
            k <= 8,
            header@.len() == 32,
            sig@ == png_signature(),
            matches == (forall|q: int| 0 <= q < k ==> header@[q] == png_signature()[q]),
        decreases 8 - k,
    {
        if header[k] != sig[k] {
            matches = false;
        }
        k = k + 1;
    }
    proof {
        if matches {
            assert(header@.subrange(0, 8) =~= png_signature());
        } else {
            let q = choose|q: int| 0 <= q < 8 && header@[q] != png_signature()[q];
            assert(header@.subrange(0, 8)[q] != png_signature()[q]);
        }
    }
    let is_png = match format {
        ImageFormat::Png => true,
        _ => false,
    };
    if is_png && matches {
        ImageInfo { format, width: read_be_u32(header, 16), height: read_be_u32(header, 20), size_bytes }
    } else {
        ImageInfo { format, width: 0, height: 0, size_bytes }
    }
}

} // verus!

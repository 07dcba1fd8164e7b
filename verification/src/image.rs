//! Icon file sniffing: the stored extension of an uploaded icon comes from
//! the magic bytes at its start, with PNG as the fallback.

use vstd::prelude::*;

verus! {

/// The extension the magic bytes name: PNG, JPEG, GIF or BMP, and PNG for
/// everything else or anything too short to tell.
pub open spec fn sniffed_extension(d: Seq<u8>) -> Seq<char> {
    if d.len() >= 4 {
        if d[0] == 0x89 && d[1] == 0x50 && d[2] == 0x4E && d[3] == 0x47 {
            "png"@
        } else if d[0] == 0xFF && d[1] == 0xD8 && d[2] == 0xFF {
            "jpg"@
        } else if d[0] == 0x47 && d[1] == 0x49 && d[2] == 0x46 && d[3] == 0x38 {
            "gif"@
        } else if d[0] == 0x42 && d[1] == 0x4D {
            "bmp"@
        } else {
            "png"@
        }
    } else {
        "png"@
    }
}

/// Name the image format of raw bytes by their magic numbers.
pub fn detect_image_extension(image_data: &[u8]) -> (r: Result<&'static str, String>)
    ensures
        match r {
            Ok(ext) => ext@ == sniffed_extension(image_data@),
            Err(_) => false,
        },
{
    if image_data.len() >= 4 {
        let b0 = *slice_index(image_data, 0);
        let b1 = *slice_index(image_data, 1);
        let b2 = *slice_index(image_data, 2);
        let b3 = *slice_index(image_data, 3);
        if b0 == 0x89 && b1 == 0x50 && b2 == 0x4E && b3 == 0x47 {
            Ok("png")
        } else if b0 == 0xFF && b1 == 0xD8 && b2 == 0xFF {
            Ok("jpg")
        } else if b0 == 0x47 && b1 == 0x49 && b2 == 0x46 && b3 == 0x38 {
            Ok("gif")
        } else if b0 == 0x42 && b1 == 0x4D {
            Ok("bmp")
        } else {
            Ok("png")
        }
    } else {
        Ok("png")
    }
}

fn slice_index(s: &[u8], i: usize) -> (r: &u8)
    requires
        i < s@.len(),
    ensures
        *r == s@[i as int],
{
    &s[i]
}

} // verus!

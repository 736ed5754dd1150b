//! The kind of content a resource holds, as far as it decides the suffix of
//! the file that the resource is saved to.

use vstd::prelude::*;
use vstd::string::StringExecFns;
use vstd::string::StringSliceAdditionalSpecFns;

verus! {

/// Coarse classification of a resource by its content type.
#[derive(Clone, Copy, Debug, PartialEq, Eq, Structural)]
pub enum FileType {
    /// Video, `video/mp4`.
    Mp4,
    /// Image, `image/jpeg`.
    Jpeg,
    /// Image, `image/png`.
    Png,
    /// Audio, `audio/ogg`.
    Ogg,
    /// Any other content, and content of which no type is given.
    Unknow,
}

/// The file suffix that belongs to a kind; empty for the unknown kind.
pub open spec fn suffix_of(kind: FileType) -> Seq<char> {
    match kind {
        FileType::Png => "png"@,
        FileType::Jpeg => "jpg"@,
        FileType::Mp4 => "mp4"@,
        FileType::Ogg => "ogg"@,
        FileType::Unknow => ""@,
    }
}

/// The kind that a content-type field announces. The field is compared byte
/// for byte with the content types that are known; anything else is of
/// unknown kind.
pub open spec fn kind_of(content_type: Seq<u8>) -> FileType {
    if content_type == "video/mp4".spec_bytes() {
        FileType::Mp4
    } else if content_type == "audio/ogg".spec_bytes() {
        FileType::Ogg
    } else if content_type == "image/jpeg".spec_bytes() {
        FileType::Jpeg
    } else if content_type == "image/png".spec_bytes() {
        FileType::Png
    } else {
        FileType::Unknow
    }
}

/// Whether two byte strings hold the same bytes.
pub fn bytes_equal(left: &[u8], right: &[u8]) -> (same: bool)
    ensures
        same == (left@ == right@),
{
    if left.len() != right.len() {
        return false;
    }
    let mut i: usize = 0;
    while i < left.len()
        invariant
            i <= left.len(),
            left.len() == right.len(),
            forall|k: int| 0 <= k < i ==> left@[k] == right@[k],
        decreases left.len() - i,
    {
        if left[i] != right[i] {
            return false;
        }
        i += 1;
    }
    assert(left@ =~= right@);
    true
}

impl FileType {
    /// Classifies a resource by the bytes of its content-type field.
    pub fn from_content_type(content_type: &[u8]) -> (kind: FileType)
        ensures
            kind == kind_of(content_type@),
    {
        if bytes_equal(content_type, "video/mp4".as_bytes()) {
            FileType::Mp4
        } else if bytes_equal(content_type, "audio/ogg".as_bytes()) {
            FileType::Ogg
        } else if bytes_equal(content_type, "image/jpeg".as_bytes()) {
            FileType::Jpeg
        } else if bytes_equal(content_type, "image/png".as_bytes()) {
            FileType::Png
        } else {
            FileType::Unknow
        }
    }

    /// The suffix of files of this kind.
    pub fn suffix(&self) -> (text: &'static str)
        ensures
            text@ == suffix_of(*self),
    {
        match self {
            FileType::Png => "png",
            FileType::Jpeg => "jpg",
            FileType::Mp4 => "mp4",
            FileType::Ogg => "ogg",
            FileType::Unknow => "",
        }
    }

    /// The suffix as an owned string.
    pub fn to_string(&self) -> (text: String)
        ensures
            text@ == suffix_of(*self),
    {
        String::from_str(self.suffix())
    }
}

} // verus!

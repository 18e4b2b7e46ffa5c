//! Recognising comic archives by their file extension.
use vstd::prelude::*;
use crate::pathutil::{extension, extension_of};
use crate::text::{chars_eq_str, chars_of, lowercase_chars, lowercase_of};

verus! {

/// Whether a (lower-case) extension is one of the comic archive extensions
/// `cbz`, `cbr`, `cb7`, `zip`, `rar`, `7z`, `pdf`.
pub open spec fn is_comic_extension(e: Seq<char>) -> bool {
    ||| e == "cbz"@
    ||| e == "cbr"@
    ||| e == "cb7"@
    ||| e == "zip"@
    ||| e == "rar"@
    ||| e == "7z"@
    ||| e == "pdf"@
}

/// Whether the path names a comic archive: its extension, lower-cased, is a
/// comic extension.
pub open spec fn comic_file(p: Seq<char>) -> bool {
    match extension_of(p) {
        Some(e) => is_comic_extension(lowercase_of(e)),
        None => false,
    }
}

/// Whether the path names a comic archive (by extension, case-insensitively).
pub fn is_comic_file(path: &str) -> (r: bool)
    ensures
        r == comic_file(path@),
{
    let p = chars_of(path);
    match extension(p.as_slice()) {
        Some(e) => {
            let l = lowercase_chars(e.as_slice());
            let s = l.as_slice();
            chars_eq_str(s, "cbz") || chars_eq_str(s, "cbr") || chars_eq_str(s, "cb7")
                || chars_eq_str(s, "zip") || chars_eq_str(s, "rar") || chars_eq_str(s, "7z")
                || chars_eq_str(s, "pdf")
        },
        None => false,
    }
}

/// The archive format of a comic file, detected by its extension.
#[derive(Debug, Clone, Copy, PartialEq, Eq, Structural)]
pub enum ComicFormat {
    Cbz,
    Cbr,
    Cb7,
    Pdf,
    Unknown,
}

/// The format named by a lower-case extension.
pub open spec fn format_of_extension(e: Seq<char>) -> ComicFormat {
    if e == "cbz"@ || e == "zip"@ {
        ComicFormat::Cbz
    } else if e == "cbr"@ || e == "rar"@ {
        ComicFormat::Cbr
    } else if e == "cb7"@ || e == "7z"@ {
        ComicFormat::Cb7
    } else if e == "pdf"@ {
        ComicFormat::Pdf
    } else {
        ComicFormat::Unknown
    }
}

/// The format of the file at `p`, from its lower-cased extension.
pub open spec fn format_of_path(p: Seq<char>) -> ComicFormat {
    match extension_of(p) {
        Some(e) => format_of_extension(lowercase_of(e)),
        None => ComicFormat::Unknown,
    }
}

impl ComicFormat {
    /// Detects the format of a file by its extension, case-insensitively.
    pub fn from_path(path: &str) -> (r: ComicFormat)
        ensures
            r == format_of_path(path@),
    {
        let p = chars_of(path);
        match extension(p.as_slice()) {
            Some(e) => {
                let l = lowercase_chars(e.as_slice());
                let s = l.as_slice();
                if chars_eq_str(s, "cbz") || chars_eq_str(s, "zip") {
                    ComicFormat::Cbz
                } else if chars_eq_str(s, "cbr") || chars_eq_str(s, "rar") {
                    ComicFormat::Cbr
                } else if chars_eq_str(s, "cb7") || chars_eq_str(s, "7z") {
                    ComicFormat::Cb7
                } else if chars_eq_str(s, "pdf") {
                    ComicFormat::Pdf
                } else {
                    ComicFormat::Unknown
                }
            },
            None => ComicFormat::Unknown,
        }
    }
}

/// A file is a comic file exactly when its format is known.
pub proof fn comic_file_iff_known_format(p: Seq<char>)
    ensures
        comic_file(p) <==> format_of_path(p) != ComicFormat::Unknown,
{
}

/// Each archive extension names its own format, whatever its case: `cbz` and
/// `zip` are CBZ, `cbr` and `rar` are CBR (opened with unrar), `cb7` and `7z`
/// are CB7, `pdf` is PDF; any other extension, or none, is unknown.
pub proof fn formats_follow_extensions(p: Seq<char>)
    ensures
        match extension_of(p) {
            Some(e) => {
                let l = lowercase_of(e);
                &&& (l == "cbz"@ || l == "zip"@) <==> format_of_path(p) == ComicFormat::Cbz
                &&& (l == "cbr"@ || l == "rar"@) <==> format_of_path(p) == ComicFormat::Cbr
                &&& (l == "cb7"@ || l == "7z"@) <==> format_of_path(p) == ComicFormat::Cb7
                &&& l == "pdf"@ <==> format_of_path(p) == ComicFormat::Pdf
            },
            None => format_of_path(p) == ComicFormat::Unknown,
        },
{
    reveal_strlit("cbz");
    reveal_strlit("zip");
    reveal_strlit("cbr");
    reveal_strlit("rar");
    reveal_strlit("cb7");
    reveal_strlit("7z");
    reveal_strlit("pdf");
    assert("zip"@[0] != "cbz"@[0]);
    assert("cbr"@[2] != "cbz"@[2]);
    assert("cbr"@[0] != "zip"@[0]);
    assert("rar"@[0] != "cbz"@[0]);
    assert("rar"@[0] != "zip"@[0]);
    assert("rar"@[0] != "cbr"@[0]);
    assert("cb7"@[2] != "cbz"@[2]);
    assert("cb7"@[0] != "zip"@[0]);
    assert("cb7"@[2] != "cbr"@[2]);
    assert("cb7"@[0] != "rar"@[0]);
    assert("7z"@.len() != "cbz"@.len());
    assert("7z"@.len() != "zip"@.len());
    assert("7z"@.len() != "cbr"@.len());
    assert("7z"@.len() != "rar"@.len());
    assert("7z"@.len() != "cb7"@.len());
    assert("pdf"@[0] != "cbz"@[0]);
    assert("pdf"@[0] != "zip"@[0]);
    assert("pdf"@[0] != "cbr"@[0]);
    assert("pdf"@[0] != "rar"@[0]);
    assert("pdf"@[0] != "cb7"@[0]);
    assert("pdf"@.len() != "7z"@.len());
}

} // verus!

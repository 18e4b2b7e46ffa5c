//! The decisions behind the preferences dialog: what is validated and stored
//! for the ComicVine key, what the thumbnails-folder dialog asks for, and the
//! texts of the library folder rows.
use vstd::prelude::*;
use crate::text::{chars_of, string_of, push_str, push_all, fmt_u64, dec};
use crate::pathutil::{file_name, file_name_of};

verus! {

/// The text shown when the key field is empty and validation is asked for.
pub open spec fn missing_key_text() -> Seq<char> {
    "❌ Introduce una API Key"@
}

/// What "validate" sends to ComicVine: the key and, when the URL field is not
/// empty, the URL; refused (with the text to show) when the key is empty.
pub fn validation_request(api_key: &str, api_url: &str) -> (r: Result<(String, Option<String>), String>)
    ensures
        match r {
            Ok((k, u)) => {
                &&& api_key@.len() > 0
                &&& k@ == api_key@
                &&& match u {
                    Some(x) => api_url@.len() > 0 && x@ == api_url@,
                    None => api_url@.len() == 0,
                }
            },
            Err(e) => api_key@.len() == 0 && e@ == missing_key_text(),
        },
{
    if api_key.is_empty() {
        return Err("❌ Introduce una API Key".to_owned());
    }
    let url = if api_url.is_empty() { None } else { Some(api_url.to_owned()) };
    Ok((api_key.to_owned(), url))
}

/// The line shown once validation answered: success, or the error it gave.
pub fn validation_subtitle(result: &Result<(), String>) -> (r: String)
    ensures
        r@ == match result {
            Ok(_) => "✅ Conexión establecida correctamente"@,
            Err(e) => "❌ Error: "@ + e@,
        },
{
    match result {
        Ok(_) => "✅ Conexión establecida correctamente".to_owned(),
        Err(e) => {
            let mut v = chars_of("❌ Error: ");
            push_str(&mut v, e.as_str());
            string_of(v.as_slice())
        },
    }
}

/// The key as stored: an empty field clears it.
pub fn stored_api_key(key: &str) -> (r: Option<String>)
    ensures
        match r {
            Some(k) => key@.len() > 0 && k@ == key@,
            None => key@.len() == 0,
        },
{
    if key.is_empty() { None } else { Some(key.to_owned()) }
}

/// The answers of the dialog shown when another thumbnails folder was chosen.
#[derive(Clone, Copy, Debug, PartialEq, Eq, Structural)]
pub enum ThumbFolderChoice {
    /// Keep the current folder.
    Cancel,
    /// Use the new folder, leaving the thumbnails where they are.
    ChangeOnly,
    /// Move the thumbnails to the new folder, then use it.
    Migrate,
}

/// The choice for a response id of that dialog: `cancel` keeps the folder,
/// `migrar` moves the thumbnails, any other response only changes the folder.
pub fn thumb_folder_choice(response: &str) -> (r: ThumbFolderChoice)
    ensures
        r == if response@ == "cancel"@ {
            ThumbFolderChoice::Cancel
        } else if response@ == "migrar"@ {
            ThumbFolderChoice::Migrate
        } else {
            ThumbFolderChoice::ChangeOnly
        },
{
    let r = response.to_owned();
    if r == "cancel".to_owned() {
        ThumbFolderChoice::Cancel
    } else if r == "migrar".to_owned() {
        ThumbFolderChoice::Migrate
    } else {
        ThumbFolderChoice::ChangeOnly
    }
}

/// The title of a library folder row: the folder's name, or its whole path
/// when the path has no last component.
pub open spec fn dir_row_title(path: Seq<char>) -> Seq<char> {
    match file_name_of(path) {
        Some(n) => n,
        None => path,
    }
}

/// The subtitle of a library folder row: its path, or a warning when the
/// folder is not on disk.
pub open spec fn dir_row_subtitle(path: Seq<char>, exists: bool) -> Seq<char> {
    if exists {
        path
    } else {
        "❌ Directorio no encontrado: "@ + path
    }
}

/// The title and subtitle of a library folder row.
pub fn dir_row_texts(path: &str, exists: bool) -> (r: (String, String))
    ensures
        r.0@ == dir_row_title(path@),
        r.1@ == dir_row_subtitle(path@, exists),
{
    let p = chars_of(path);
    let title = match file_name(p.as_slice()) {
        Some(n) => string_of(n.as_slice()),
        None => path.to_owned(),
    };
    let subtitle = if exists {
        path.to_owned()
    } else {
        let mut v = chars_of("❌ Directorio no encontrado: ");
        push_all(&mut v, p.as_slice());
        string_of(v.as_slice())
    };
    (title, subtitle)
}

/// The line shown after the cover hashes were recomputed.
pub fn hashes_done_message(total: u64) -> (r: String)
    ensures
        r@ == "✅ "@ + dec(total as nat) + " comics procesados"@,
{
    let mut v = chars_of("✅ ");
    let d = fmt_u64(total);
    push_all(&mut v, d.as_slice());
    push_str(&mut v, " comics procesados");
    string_of(v.as_slice())
}

/// Where the bytes to hash a comic's cover come from: its thumbnail when it
/// is on disk, else the cover extracted from the file.
#[derive(Clone, Copy, Debug, PartialEq, Eq, Structural)]
pub enum HashSource {
    Thumbnail,
    ExtractedCover,
}

/// The source of the bytes hashed for a comic.
pub fn hash_source(thumbnail_exists: bool) -> (r: HashSource)
    ensures
        r == if thumbnail_exists { HashSource::Thumbnail } else { HashSource::ExtractedCover },
{
    if thumbnail_exists { HashSource::Thumbnail } else { HashSource::ExtractedCover }
}

} // verus!

use babelcomics::preferences::{
    dir_row_texts, hash_source, hashes_done_message, stored_api_key, thumb_folder_choice,
    validation_request, validation_subtitle, HashSource, ThumbFolderChoice,
};

#[test]
fn validation_needs_a_key() {
    assert_eq!(validation_request("", "http://x"), Err("❌ Introduce una API Key".to_string()));
    assert_eq!(validation_request("k", ""), Ok(("k".to_string(), None)));
    assert_eq!(
        validation_request("k", "http://cv"),
        Ok(("k".to_string(), Some("http://cv".to_string())))
    );
}

#[test]
fn validation_subtitles() {
    assert_eq!(validation_subtitle(&Ok(())), "✅ Conexión establecida correctamente");
    assert_eq!(validation_subtitle(&Err("401".to_string())), "❌ Error: 401");
}

#[test]
fn empty_key_is_not_stored() {
    assert_eq!(stored_api_key(""), None);
    assert_eq!(stored_api_key("abc"), Some("abc".to_string()));
}

#[test]
fn folder_dialog_responses() {
    assert_eq!(thumb_folder_choice("cancel"), ThumbFolderChoice::Cancel);
    assert_eq!(thumb_folder_choice("migrar"), ThumbFolderChoice::Migrate);
    assert_eq!(thumb_folder_choice("solo_cambiar"), ThumbFolderChoice::ChangeOnly);
}

#[test]
fn folder_rows() {
    assert_eq!(
        dir_row_texts("/home/u/Comics", true),
        ("Comics".to_string(), "/home/u/Comics".to_string())
    );
    assert_eq!(
        dir_row_texts("/mnt/gone/", false),
        ("gone".to_string(), "❌ Directorio no encontrado: /mnt/gone/".to_string())
    );
    assert_eq!(dir_row_texts("/", true), ("/".to_string(), "/".to_string()));
}

#[test]
fn hash_recompute_texts_and_source() {
    assert_eq!(hashes_done_message(12), "✅ 12 comics procesados");
    assert_eq!(hash_source(true), HashSource::Thumbnail);
    assert_eq!(hash_source(false), HashSource::ExtractedCover);
}

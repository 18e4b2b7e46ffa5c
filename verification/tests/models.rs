use babelcomics::extraction_registry::{register, unregister, RegistryEntry};
use babelcomics::models::{ComicFilter, ComicbookDetail, TipoPagina};
use babelcomics::publisher_import::{import_report, publisher_fields, volume_stub, ImportError};

#[test]
fn page_kinds() {
    assert_eq!(TipoPagina::from_db(1), TipoPagina::FrontCover);
    assert_eq!(TipoPagina::from_db(5), TipoPagina::Other);
    assert_eq!(TipoPagina::from_db(42), TipoPagina::Story);
    assert_eq!(TipoPagina::Advertisement.to_db(), 4);
    assert_eq!(TipoPagina::InnerCover.label(), "Portada interior");
    assert_eq!(TipoPagina::Story.label(), "Historia");
    assert_eq!(TipoPagina::from_comicinfo_str("FrontCover"), TipoPagina::FrontCover);
    assert_eq!(TipoPagina::from_comicinfo_str("Story"), TipoPagina::Story);
    assert_eq!(TipoPagina::from_comicinfo_str("Deleted"), TipoPagina::Other);
    let d = ComicbookDetail { id_detail: 1, comicbook_id: 2, indice_pagina: 0, orden_pagina: 0, tipo_pagina: 2, nombre_pagina: None };
    assert_eq!(d.tipo(), TipoPagina::BackCover);
}

#[test]
fn default_filter_is_empty() {
    let f = ComicFilter::default();
    assert!(f.query.is_none() && f.clasificado.is_none() && f.min_calidad.is_none());
}

#[test]
fn registry_keeps_each_folder_once() {
    let first = register(vec![], "a.cbz", "/x/.babelcomics/h").unwrap();
    assert_eq!(first.len(), 1);
    assert_eq!(first[0].comic, "a.cbz");
    assert!(register(first.clone(), "a.cbz", "/x/.babelcomics/h").is_none());
    let two = register(first, "b.cbz", "/y/.babelcomics/k").unwrap();
    let left = unregister(&two, "/x/.babelcomics/h");
    assert_eq!(left.len(), 1);
    assert_eq!(left[0].cache, "/y/.babelcomics/k");
    let none: Vec<RegistryEntry> = unregister(&left, "/y/.babelcomics/k");
    assert!(none.is_empty());
}

#[test]
fn publisher_import_fields() {
    let f = publisher_fields(10, None, Some(String::new()), Some("http://i".into())).unwrap();
    assert_eq!(f.name, "Editorial desconocida");
    assert_eq!(f.description, None);
    assert_eq!(f.image_url, Some("http://i".to_string()));
    assert_eq!(publisher_fields(10, Some(String::new()), None, None).err(), Some(ImportError::EmptyName(10)));
    assert_eq!(ImportError::EmptyName(10).message(), "La API devolvió un nombre de editorial vacío para id 10");
    assert_eq!(volume_stub(None, None, None), None);
    assert_eq!(volume_stub(Some(3), None, None), Some((3, "Sin nombre".to_string(), String::new())));
    let r = import_report("DC".into(), 4, 10, 7);
    assert_eq!((r.volumes_inserted, r.volumes_skipped), (7, 3));
}

#[test]
fn default_settings() {
    let s = babelcomics::models::Setup::default();
    assert_eq!(s.setupkey, "default");
    assert_eq!(s.thumbnail_size, 200);
    assert_eq!(s.items_por_pagina, 50);
    assert_eq!(s.num_workers, 4);
    assert_eq!(s.intervalo_api_ms, 500);
    assert_eq!(s.api_url.as_deref(), Some("https://comicvine.gamespot.com/api/"));
    assert!(s.clip_al_arranque && !s.modo_oscuro);
    assert_eq!(s.reader_filter, 3);
    assert!(s.api_key_encrypted.is_none() && s.idioma.is_none() && s.carpeta_thumbnails.is_none());
}

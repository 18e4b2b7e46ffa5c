//! The records of the catalogue: publishers, volumes, issues and their covers,
//! comic files and their pages, and the settings' directories.
use vstd::prelude::*;
use crate::text::{chars_of, chars_eq_str};

verus! {

/// A publisher.
#[derive(Clone, Debug)]
pub struct Publisher {
    pub id_publisher: i64,
    pub nombre: String,
    pub descripcion: Option<String>,
    pub id_comicvine: Option<i64>,
    pub image_url: Option<String>,
}

/// A publisher to insert.
#[derive(Clone, Debug)]
pub struct NewPublisher {
    pub nombre: String,
    pub descripcion: Option<String>,
    pub id_comicvine: Option<i64>,
    pub image_url: Option<String>,
}

/// A volume (series).
#[derive(Clone, Debug)]
pub struct Volume {
    pub id_volume: i64,
    pub nombre: String,
    pub deck: String,
    pub descripcion: String,
    pub url: String,
    pub image_url: String,
    pub id_publisher: i64,
    pub anio_inicio: i64,
    pub cantidad_numeros: i64,
    pub id_comicvine: Option<i64>,
}

/// A volume to insert.
#[derive(Clone, Debug)]
pub struct NewVolume {
    pub nombre: String,
    pub deck: String,
    pub descripcion: String,
    pub url: String,
    pub image_url: String,
    pub id_publisher: i64,
    pub anio_inicio: i64,
    pub cantidad_numeros: i64,
    pub id_comicvine: Option<i64>,
}

/// A volume in the volumes grid, with counts.
#[derive(Clone, Debug)]
pub struct VolumeView {
    pub id_volume: i64,
    pub nombre: String,
    pub anio_inicio: i64,
    /// Issues on ComicVine.
    pub cantidad_numeros: i64,
    /// Issues owned.
    pub cantidad_poseida: i64,
    /// The first comic, for the thumbnail.
    pub id_comicbook_portada: Option<i64>,
    pub path_portada: Option<String>,
    pub image_url: String,
}

/// A cover of a catalogued issue.
#[derive(Clone, Debug)]
pub struct ComicbookInfoCover {
    pub id: i64,
    pub id_comicbook_info: i64,
    pub url_original: String,
    pub ruta_local: Option<String>,
}

/// A cover to insert.
#[derive(Clone, Debug)]
pub struct NewComicbookInfoCover {
    pub id_comicbook_info: i64,
    pub url_original: String,
    pub ruta_local: Option<String>,
}

/// A comic file to insert.
#[derive(Clone, Debug)]
pub struct NewComicbook {
    pub path: String,
    pub id_comicbook_info: Option<i64>,
    pub calidad: Option<String>,
}

/// Filters of the comics search.
#[derive(Clone, Debug)]
pub struct ComicFilter {
    pub query: Option<String>,
    pub clasificado: Option<bool>,
    pub min_calidad: Option<i32>,
}

impl Default for ComicFilter {
    fn default() -> (r: Self)
        ensures
            r.query is None,
            r.clasificado is None,
            r.min_calidad is None,
    {
        ComicFilter { query: None, clasificado: None, min_calidad: None }
    }
}

/// A catalogued issue to insert. Ratings are not set when issues are added.
#[derive(Clone, Debug)]
pub struct NewComicbookInfo {
    pub titulo: String,
    pub id_volume: Option<i64>,
    pub numero: Option<String>,
    pub resumen: Option<String>,
    pub id_comicvine: Option<i64>,
    pub url_api_detalle: Option<String>,
}

/// The application settings. The pause between ComicVine requests is kept in
/// milliseconds.
#[derive(Clone, Debug)]
pub struct Setup {
    pub setupkey: String,
    pub api_key_encrypted: Option<String>,
    pub modo_oscuro: bool,
    pub thumbnail_size: i64,
    pub items_por_pagina: i64,
    pub num_workers: i64,
    pub idioma: Option<String>,
    pub carpeta_thumbnails: Option<String>,
    pub intervalo_api_ms: i64,
    pub api_url: Option<String>,
    pub clip_al_arranque: bool,
    pub reader_filter: i64,
}

impl Default for Setup {
    /// The settings of a new library: medium cards, pages of 50, four workers,
    /// half a second between requests, the public ComicVine API, CLIP indexing
    /// at start-up and the Lanczos3 reader filter.
    fn default() -> (r: Self)
        ensures
            r.setupkey@ == "default"@,
            r.api_key_encrypted is None,
            !r.modo_oscuro,
            r.thumbnail_size == 200,
            r.items_por_pagina == 50,
            r.num_workers == 4,
            r.idioma is None,
            r.carpeta_thumbnails is None,
            r.intervalo_api_ms == 500,
            r.api_url matches Some(u) && u@ == "https://comicvine.gamespot.com/api/"@,
            r.clip_al_arranque,
            r.reader_filter == 3,
    {
        Setup {
            setupkey: "default".to_owned(),
            api_key_encrypted: None,
            modo_oscuro: false,
            thumbnail_size: 200,
            items_por_pagina: 50,
            num_workers: 4,
            idioma: None,
            carpeta_thumbnails: None,
            intervalo_api_ms: 500,
            api_url: Some("https://comicvine.gamespot.com/api/".to_owned()),
            clip_al_arranque: true,
            reader_filter: 3,
        }
    }
}

/// A directory of the library.
#[derive(Clone, Debug)]
pub struct SetupDirectorio {
    pub id: i64,
    pub path: String,
    pub setup_key: String,
}

/// A directory to add to the library.
#[derive(Clone, Debug)]
pub struct NewSetupDirectorio {
    pub path: String,
    pub setup_key: String,
}

/// The outcome of importing a publisher from ComicVine.
#[derive(Clone, Debug)]
pub struct ImportReport {
    pub publisher_name: String,
    pub publisher_local_id: i64,
    pub volumes_inserted: usize,
    pub volumes_skipped: usize,
}

/// The outcome of a library scan.
#[derive(Clone, Debug)]
pub struct ScanResult {
    pub total_found: usize,
    pub new_inserted: u64,
    pub covers_generated: u32,
    pub errors: Vec<String>,
}

/// Progress of a CLIP indexing run.
#[derive(Clone, Copy, Debug, PartialEq, Eq, Structural)]
pub struct ClipGenerationProgress {
    pub processed: u32,
    pub total: u32,
    pub generated: u32,
    pub errors: u32,
}

// ── pages ─────────────────────────────────────────────────────────────────

/// Kind of a page, as in ComicInfo.xml.
#[derive(Clone, Copy, Debug, PartialEq, Eq, Structural)]
pub enum TipoPagina {
    Story,
    FrontCover,
    BackCover,
    InnerCover,
    Advertisement,
    Other,
}

/// The page kind a stored value stands for (`Story` for unknown values).
pub open spec fn tipo_from_db(val: i64) -> TipoPagina {
    if val == 1 {
        TipoPagina::FrontCover
    } else if val == 2 {
        TipoPagina::BackCover
    } else if val == 3 {
        TipoPagina::InnerCover
    } else if val == 4 {
        TipoPagina::Advertisement
    } else if val == 5 {
        TipoPagina::Other
    } else {
        TipoPagina::Story
    }
}

/// The value a page kind is stored as.
pub open spec fn tipo_db_value(t: TipoPagina) -> i64 {
    match t {
        TipoPagina::Story => 0,
        TipoPagina::FrontCover => 1,
        TipoPagina::BackCover => 2,
        TipoPagina::InnerCover => 3,
        TipoPagina::Advertisement => 4,
        TipoPagina::Other => 5,
    }
}

/// The page kind named in ComicInfo.xml (`Other` for unknown names).
pub open spec fn tipo_from_comicinfo(s: Seq<char>) -> TipoPagina {
    if s == "FrontCover"@ {
        TipoPagina::FrontCover
    } else if s == "BackCover"@ {
        TipoPagina::BackCover
    } else if s == "InnerCover"@ {
        TipoPagina::InnerCover
    } else if s == "Advertisement"@ {
        TipoPagina::Advertisement
    } else if s == "Story"@ {
        TipoPagina::Story
    } else {
        TipoPagina::Other
    }
}

impl TipoPagina {
    /// The page kind stored in the database.
    pub fn from_db(val: i64) -> (r: Self)
        ensures
            r == tipo_from_db(val),
    {
        match val {
            1 => TipoPagina::FrontCover,
            2 => TipoPagina::BackCover,
            3 => TipoPagina::InnerCover,
            4 => TipoPagina::Advertisement,
            5 => TipoPagina::Other,
            _ => TipoPagina::Story,
        }
    }

    /// The value stored in the database.
    pub fn to_db(self) -> (r: i64)
        ensures
            r == tipo_db_value(self),
    {
        match self {
            TipoPagina::Story => 0,
            TipoPagina::FrontCover => 1,
            TipoPagina::BackCover => 2,
            TipoPagina::InnerCover => 3,
            TipoPagina::Advertisement => 4,
            TipoPagina::Other => 5,
        }
    }

    /// The name shown in the UI.
    pub fn label(self) -> (r: &'static str)
        ensures
            r@ == match self {
                TipoPagina::Story => "Historia"@,
                TipoPagina::FrontCover => "Portada"@,
                TipoPagina::BackCover => "Contraportada"@,
                TipoPagina::InnerCover => "Portada interior"@,
                TipoPagina::Advertisement => "Publicidad"@,
                TipoPagina::Other => "Otro"@,
            },
    {
        match self {
            TipoPagina::Story => "Historia",
            TipoPagina::FrontCover => "Portada",
            TipoPagina::BackCover => "Contraportada",
            TipoPagina::InnerCover => "Portada interior",
            TipoPagina::Advertisement => "Publicidad",
            TipoPagina::Other => "Otro",
        }
    }

    /// The page kind of a ComicInfo.xml `Type` attribute.
    pub fn from_comicinfo_str(s: &str) -> (r: Self)
        ensures
            r == tipo_from_comicinfo(s@),
    {
        let v = chars_of(s);
        if chars_eq_str(v.as_slice(), "FrontCover") {
            TipoPagina::FrontCover
        } else if chars_eq_str(v.as_slice(), "BackCover") {
            TipoPagina::BackCover
        } else if chars_eq_str(v.as_slice(), "InnerCover") {
            TipoPagina::InnerCover
        } else if chars_eq_str(v.as_slice(), "Advertisement") {
            TipoPagina::Advertisement
        } else if chars_eq_str(v.as_slice(), "Story") {
            TipoPagina::Story
        } else {
            TipoPagina::Other
        }
    }
}

/// A page of a comic file.
#[derive(Clone, Debug)]
pub struct ComicbookDetail {
    pub id_detail: i64,
    pub comicbook_id: i64,
    pub indice_pagina: i64,
    pub orden_pagina: i64,
    pub tipo_pagina: i64,
    pub nombre_pagina: Option<String>,
}

impl ComicbookDetail {
    /// The kind of the page.
    pub fn tipo(&self) -> (r: TipoPagina)
        ensures
            r == tipo_from_db(self.tipo_pagina),
    {
        TipoPagina::from_db(self.tipo_pagina)
    }
}

/// A page to insert.
#[derive(Clone, Debug)]
pub struct NewComicbookDetail {
    pub comicbook_id: i64,
    pub indice_pagina: i64,
    pub orden_pagina: i64,
    pub tipo_pagina: TipoPagina,
    pub nombre_pagina: Option<String>,
}

// ── laws ──────────────────────────────────────────────────────────────────

/// A page kind reads back from its stored value.
pub proof fn tipo_db_round_trip(t: TipoPagina)
    ensures
        tipo_from_db(tipo_db_value(t)) == t,
{
}

} // verus!

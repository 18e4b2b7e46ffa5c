//! The kinds of tab of the main window, with the title and icon each tab
//! opens with.
use vstd::prelude::*;
use crate::text::{string_of, push_str};

verus! {

/// A tab of the main window and what it shows.
#[derive(Clone, Debug, PartialEq, Eq)]
pub enum TabKind {
    Comics,
    Volumes,
    Publishers,
    Downloads,
    ComicVineSearch,
    /// The page that lets the user pick the kind of a new tab.
    Selector,
    /// One comic, by id.
    ComicDetail(i64),
    /// One volume (series), by id.
    VolumeDetail(i64),
    /// One catalogued issue, by id.
    IssueDetail(i64),
    /// Cataloguing the given comics by visual similarity.
    CatalogacionInteligente(Vec<i64>),
}

/// The title a tab opens with.
pub open spec fn tab_title_of(kind: TabKind) -> Seq<char> {
    match kind {
        TabKind::Comics => "Comics"@,
        TabKind::Volumes => "Series"@,
        TabKind::Publishers => "Editoriales"@,
        TabKind::Downloads => "Descargas"@,
        TabKind::ComicVineSearch => "Buscar en ComicVine"@,
        TabKind::Selector => "Nueva pestaña"@,
        TabKind::ComicDetail(_) => "Detalle de cómic"@,
        TabKind::VolumeDetail(_) => "Detalle de serie"@,
        TabKind::IssueDetail(_) => "Detalle de issue"@,
        TabKind::CatalogacionInteligente(_) => "Catalogación Inteligente"@,
    }
}

/// The icon of a tab.
pub open spec fn tab_icon_of(kind: TabKind) -> Seq<char> {
    match kind {
        TabKind::Comics => "image-x-generic-symbolic"@,
        TabKind::Volumes => "accessories-dictionary-symbolic"@,
        TabKind::Publishers => "building-symbolic"@,
        TabKind::Downloads => "folder-download-symbolic"@,
        TabKind::ComicVineSearch => "web-browser-symbolic"@,
        TabKind::Selector => "tab-new-symbolic"@,
        TabKind::ComicDetail(_) => "image-x-generic-symbolic"@,
        TabKind::VolumeDetail(_) => "open-book-symbolic"@,
        TabKind::IssueDetail(_) => "image-x-generic-symbolic"@,
        TabKind::CatalogacionInteligente(_) => "find-location-symbolic"@,
    }
}

impl TabKind {
    /// The title the tab opens with (detail tabs get their final title once
    /// their data is loaded).
    pub fn initial_title(&self) -> (r: &'static str)
        ensures
            r@ == tab_title_of(*self),
    {
        match self {
            TabKind::Comics => "Comics",
            TabKind::Volumes => "Series",
            TabKind::Publishers => "Editoriales",
            TabKind::Downloads => "Descargas",
            TabKind::ComicVineSearch => "Buscar en ComicVine",
            TabKind::Selector => "Nueva pestaña",
            TabKind::ComicDetail(_) => "Detalle de cómic",
            TabKind::VolumeDetail(_) => "Detalle de serie",
            TabKind::IssueDetail(_) => "Detalle de issue",
            TabKind::CatalogacionInteligente(_) => "Catalogación Inteligente",
        }
    }

    /// The icon of the tab.
    pub fn icon_name(&self) -> (r: &'static str)
        ensures
            r@ == tab_icon_of(*self),
    {
        match self {
            TabKind::Comics => "image-x-generic-symbolic",
            TabKind::Volumes => "accessories-dictionary-symbolic",
            TabKind::Publishers => "building-symbolic",
            TabKind::Downloads => "folder-download-symbolic",
            TabKind::ComicVineSearch => "web-browser-symbolic",
            TabKind::Selector => "tab-new-symbolic",
            TabKind::ComicDetail(_) => "image-x-generic-symbolic",
            TabKind::VolumeDetail(_) => "open-book-symbolic",
            TabKind::IssueDetail(_) => "image-x-generic-symbolic",
            TabKind::CatalogacionInteligente(_) => "find-location-symbolic",
        }
    }
}

/// The kinds offered for a new tab, with their labels, in the order they are listed.
pub fn new_tab_choices() -> (r: Vec<(&'static str, TabKind)>)
    ensures
        r@.len() == 5,
        r@[0].0@ == "Comics"@ && r@[0].1 == TabKind::Comics,
        r@[1].0@ == "Series"@ && r@[1].1 == TabKind::Volumes,
        r@[2].0@ == "Editoriales"@ && r@[2].1 == TabKind::Publishers,
        r@[3].0@ == "Descargas"@ && r@[3].1 == TabKind::Downloads,
        r@[4].0@ == "ComicVine"@ && r@[4].1 == TabKind::ComicVineSearch,
{
    let mut v: Vec<(&'static str, TabKind)> = Vec::new();
    v.push(("Comics", TabKind::Comics));
    v.push(("Series", TabKind::Volumes));
    v.push(("Editoriales", TabKind::Publishers));
    v.push(("Descargas", TabKind::Downloads));
    v.push(("ComicVine", TabKind::ComicVineSearch));
    v
}

/// The final title of an issue tab: `#{number} {title}`, `?` for an issue
/// without a number.
pub fn issue_tab_title(numero: Option<&str>, titulo: &str) -> (r: String)
    ensures
        r@ == seq!['#'] + match numero { Some(n) => n@, None => seq!['?'] } + seq![' '] + titulo@,
{
    let mut v: Vec<char> = Vec::new();
    v.push('#');
    match numero {
        Some(n) => push_str(&mut v, n),
        None => v.push('?'),
    }
    v.push(' ');
    push_str(&mut v, titulo);
    string_of(v.as_slice())
}

} // verus!

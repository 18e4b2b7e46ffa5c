//! A comic of the library joined with its catalogue data, and what its card
//! and its detail page show of it.
use vstd::prelude::*;
use crate::text::{chars_of, string_of, push_all, fmt_i64, dec_int, parse_i64, parse_signed};

verus! {

/// A comic file with what the catalogue knows of it. The rating is kept
/// rounded to whole stars.
#[derive(Clone, Debug)]
pub struct ComicbookView {
    pub id_comicbook: i64,
    pub path: String,
    pub en_papelera: bool,
    pub calidad: Option<String>,
    pub error_ultimo_escaneo: Option<String>,
    pub procesado: bool,
    pub titulo: Option<String>,
    pub numero: Option<String>,
    /// The issue's rating, rounded to a whole number.
    pub calificacion: Option<i64>,
    pub nombre_volume: Option<String>,
    pub nombre_publisher: Option<String>,
    pub ruta_cover: Option<String>,
}

/// The view of an optional string.
pub open spec fn opt_view(o: Option<String>) -> Option<Seq<char>> {
    match o {
        Some(s) => Some(s@),
        None => None,
    }
}

/// `s` repeated `n` times.
pub open spec fn repeat(s: Seq<char>, n: nat) -> Seq<char>
    decreases n,
{
    if n == 0 {
        Seq::empty()
    } else {
        repeat(s, (n - 1) as nat) + s
    }
}

fn repeat_star(n: usize) -> (r: Vec<char>)
    ensures
        r@ == repeat(seq!['★'], n as nat),
{
    let mut v: Vec<char> = Vec::new();
    let mut i: usize = 0;
    while i < n
        invariant
            i <= n,
            v@ == repeat(seq!['★'], i as nat),
        decreases n - i,
    {
        v.push('★');
        i = i + 1;
    }
    v
}

/// `str::parse::<i32>`.
pub open spec fn parse_i32_of(s: Seq<char>) -> Option<int> {
    match parse_signed(s) {
        Some(v) => if i32::MIN <= v <= i32::MAX { Some(v) } else { None },
        None => None,
    }
}

/// The quality stars of a comic card: as many stars as the quality field
/// holds as an integer, none when it holds no integer.
pub fn quality_stars(calidad: &str) -> (r: Option<String>)
    requires
        parse_i32_of(calidad@) matches Some(v) ==> v >= 0,
    ensures
        match r {
            Some(s) => parse_i32_of(calidad@) matches Some(v) && s@ == repeat(seq!['★'], v as nat),
            None => parse_i32_of(calidad@) is None,
        },
{
    let c = chars_of(calidad);
    match parse_i64(c.as_slice()) {
        Some(v) => {
            if -2147483648 <= v && v <= 2147483647 {
                let stars = repeat_star(v as usize);
                Some(string_of(stars.as_slice()))
            } else {
                None
            }
        },
        None => None,
    }
}

/// Whether a comic is catalogued, as its card and detail page say it.
pub fn status_label(view: &ComicbookView) -> (r: &'static str)
    ensures
        r@ == if view.titulo is Some { "Clasificado"@ } else { "Sin clasificar"@ },
{
    if view.titulo.is_some() { "Clasificado" } else { "Sin clasificar" }
}

/// A row of a detail page: its title and its value.
pub type Row = (String, String);

/// The views of a list of rows.
pub open spec fn rows_view(rows: Seq<Row>) -> Seq<(Seq<char>, Seq<char>)> {
    Seq::new(rows.len(), |i: int| (rows[i].0@, rows[i].1@))
}

/// A one-row list when the value is there, else none.
pub open spec fn opt_row(title: Seq<char>, value: Option<Seq<char>>) -> Seq<(Seq<char>, Seq<char>)> {
    match value {
        Some(v) => seq![(title, v)],
        None => Seq::empty(),
    }
}

/// The rows of the "Archivo" group of a comic's page: id, state, quality
/// when known, whether it is in the trash, path, and the last scan error
/// when there is one.
pub open spec fn file_rows_of(view: ComicbookView) -> Seq<(Seq<char>, Seq<char>)> {
    seq![
        ("ID"@, seq!['#'] + dec_int(view.id_comicbook as int)),
        ("Estado"@, if view.titulo is Some { "Clasificado"@ } else { "Sin clasificar"@ }),
    ] + opt_row("Calidad"@, opt_view(view.calidad)) + seq![
        ("En papelera"@, if view.en_papelera { "Sí"@ } else { "No"@ }),
        ("Ruta"@, view.path@),
    ] + opt_row("Error de escaneo"@, opt_view(view.error_ultimo_escaneo))
}

fn push_row(rows: &mut Vec<Row>, title: &str, value: String)
    ensures
        rows_view(final(rows)@) == rows_view(old(rows)@).push((title@, value@)),
{
    rows.push((title.to_owned(), value));
    assert(rows_view(rows@) =~= rows_view(old(rows)@).push((title@, value@)));
}

fn push_opt_row(rows: &mut Vec<Row>, title: &str, value: &Option<String>)
    ensures
        rows_view(final(rows)@) == rows_view(old(rows)@) + opt_row(title@, opt_view(*value)),
{
    match value {
        Some(v) => push_row(rows, title, v.clone()),
        None => assert(rows_view(old(rows)@) + opt_row(title@, opt_view(*value)) =~= rows_view(old(rows)@)),
    }
}

/// The rows of the "Archivo" group of a comic's page.
pub fn file_rows(view: &ComicbookView) -> (r: Vec<Row>)
    ensures
        rows_view(r@) == file_rows_of(*view),
{
    let mut rows: Vec<Row> = Vec::new();
    let mut id: Vec<char> = Vec::new();
    id.push('#');
    let d = fmt_i64(view.id_comicbook);
    push_all(&mut id, d.as_slice());
    assert(id@ =~= seq!['#'] + dec_int(view.id_comicbook as int));
    push_row(&mut rows, "ID", string_of(id.as_slice()));
    push_row(&mut rows, "Estado", status_label(view).to_owned());
    let ghost head = rows_view(rows@);
    assert(head =~= seq![
        ("ID"@, seq!['#'] + dec_int(view.id_comicbook as int)),
        ("Estado"@, if view.titulo is Some { "Clasificado"@ } else { "Sin clasificar"@ }),
    ]);
    push_opt_row(&mut rows, "Calidad", &view.calidad);
    let ghost mid = rows_view(rows@);
    push_row(&mut rows, "En papelera", if view.en_papelera { "Sí".to_owned() } else { "No".to_owned() });
    push_row(&mut rows, "Ruta", view.path.clone());
    let ghost mid2 = rows_view(rows@);
    assert(mid2 =~= mid + seq![
        ("En papelera"@, if view.en_papelera { "Sí"@ } else { "No"@ }),
        ("Ruta"@, view.path@),
    ]);
    push_opt_row(&mut rows, "Error de escaneo", &view.error_ultimo_escaneo);
    rows
}

/// The stars shown for a rating: its rounded value held to 0..=5.
pub open spec fn rating_stars(rounded: i64) -> Seq<char> {
    repeat(seq!['★'], if rounded < 0 { 0 } else if rounded > 5 { 5 } else { rounded as nat })
}

/// The rows of the "Catalogación" group of a comic's page: title, number,
/// volume, publisher and rating, each when known.
pub open spec fn catalog_rows_of(view: ComicbookView) -> Seq<(Seq<char>, Seq<char>)> {
    opt_row("Título"@, opt_view(view.titulo)) + opt_row("Número"@, opt_view(view.numero)) + opt_row(
        "Volumen"@,
        opt_view(view.nombre_volume),
    ) + opt_row("Editorial"@, opt_view(view.nombre_publisher)) + match view.calificacion {
        Some(c) => seq![("Calificación"@, rating_stars(c))],
        None => Seq::empty(),
    }
}

/// The rows of the "Catalogación" group of a comic's page.
pub fn catalog_rows(view: &ComicbookView) -> (r: Vec<Row>)
    ensures
        rows_view(r@) == catalog_rows_of(*view),
{
    let mut rows: Vec<Row> = Vec::new();
    push_opt_row(&mut rows, "Título", &view.titulo);
    push_opt_row(&mut rows, "Número", &view.numero);
    push_opt_row(&mut rows, "Volumen", &view.nombre_volume);
    push_opt_row(&mut rows, "Editorial", &view.nombre_publisher);
    match view.calificacion {
        Some(c) => {
            let n: usize = if c < 0 { 0 } else if c > 5 { 5 } else { c as usize };
            let stars = repeat_star(n);
            push_row(&mut rows, "Calificación", string_of(stars.as_slice()));
        },
        None => {},
    }
    assert(rows_view(rows@) =~= catalog_rows_of(*view));
    rows
}

} // verus!

use babelcomics::comic_view::{catalog_rows, file_rows, quality_stars, status_label, ComicbookView};

fn view() -> ComicbookView {
    ComicbookView {
        id_comicbook: 42,
        path: "/c/Saga 01.cbz".to_string(),
        en_papelera: false,
        calidad: Some("3".to_string()),
        error_ultimo_escaneo: None,
        procesado: true,
        titulo: Some("Saga".to_string()),
        numero: Some("1".to_string()),
        calificacion: Some(7),
        nombre_volume: Some("Saga".to_string()),
        nombre_publisher: None,
        ruta_cover: None,
    }
}

fn rows(v: Vec<(String, String)>) -> Vec<(String, String)> {
    v
}

fn r(a: &str, b: &str) -> (String, String) {
    (a.to_string(), b.to_string())
}

#[test]
fn quality_stars_follow_the_number() {
    assert_eq!(quality_stars("3"), Some("★★★".to_string()));
    assert_eq!(quality_stars("0"), Some(String::new()));
    assert_eq!(quality_stars("alta"), None);
    assert_eq!(quality_stars("99999999999"), None);
}

#[test]
fn status_follows_catalogue() {
    let mut v = view();
    assert_eq!(status_label(&v), "Clasificado");
    v.titulo = None;
    assert_eq!(status_label(&v), "Sin clasificar");
}

#[test]
fn file_group_rows() {
    let mut v = view();
    assert_eq!(
        rows(file_rows(&v)),
        vec![
            r("ID", "#42"),
            r("Estado", "Clasificado"),
            r("Calidad", "3"),
            r("En papelera", "No"),
            r("Ruta", "/c/Saga 01.cbz"),
        ]
    );
    v.calidad = None;
    v.en_papelera = true;
    v.error_ultimo_escaneo = Some("zip roto".to_string());
    assert_eq!(
        file_rows(&v),
        vec![
            r("ID", "#42"),
            r("Estado", "Clasificado"),
            r("En papelera", "Sí"),
            r("Ruta", "/c/Saga 01.cbz"),
            r("Error de escaneo", "zip roto"),
        ]
    );
}

#[test]
fn catalog_group_rows_clamp_rating() {
    let v = view();
    assert_eq!(
        catalog_rows(&v),
        vec![r("Título", "Saga"), r("Número", "1"), r("Volumen", "Saga"), r("Calificación", "★★★★★")]
    );
    let mut w = view();
    w.calificacion = Some(-2);
    w.titulo = None;
    assert_eq!(catalog_rows(&w)[2], r("Calificación", ""));
}

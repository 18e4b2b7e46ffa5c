use babelcomics::extractor::{extract_cover, extract_page_to_memory, list_pages, pdf_page_file_name, CoverSource, ExtractError, PageSource};
use babelcomics::natural::natural_sort_compare;
use babelcomics::scanner::{is_comic_file, ComicFormat};
use std::cmp::Ordering;

#[test]
fn natural_order_of_names() {
    assert_eq!(natural_sort_compare("page2", "page10"), Ordering::Less);
    assert_eq!(natural_sort_compare("Page10", "page2"), Ordering::Greater);
    assert_eq!(natural_sort_compare("a", "A"), Ordering::Equal);
}

#[test]
fn comic_files_by_extension() {
    assert!(is_comic_file("a.CBZ"));
    assert!(is_comic_file("/x/y.pdf"));
    assert!(!is_comic_file("notes.txt"));
    assert_eq!(ComicFormat::from_path("x.pdf"), ComicFormat::Pdf);
    assert_eq!(ComicFormat::from_path("x.ZIP"), ComicFormat::Cbz);
    assert_eq!(ComicFormat::from_path("x"), ComicFormat::Unknown);
}

#[test]
fn archive_pages_in_reading_order() {
    let entries: Vec<String> = vec!["p10.jpg".into(), "p2.jpg".into(), "info.txt".into(), "p1.png".into()];
    let pages = list_pages("a.cbz", "", &entries).unwrap();
    assert_eq!(pages, vec!["p1.png", "p2.jpg", "p10.jpg"]);
}

#[test]
fn pdf_pages_are_numbered() {
    let pages = list_pages("a.pdf", "Title: x\nPages:          3\n", &vec![]).unwrap();
    assert_eq!(pages, vec!["0001", "0002", "0003"]);
    assert!(matches!(list_pages("a.pdf", "nothing", &vec![]), Err(ExtractError::PdfPageCount(_))));
    assert!(matches!(list_pages("a.txt", "", &vec![]), Err(ExtractError::UnsupportedFormat(_))));
    assert_eq!(pdf_page_file_name(3), "page-0003.jpg");
}

#[test]
fn covers_and_pages() {
    let entries: Vec<String> = vec!["b.png".into(), "a.jpg".into(), "c.txt".into()];
    match extract_cover("x.cbz", &entries).unwrap() {
        CoverSource::Entry(n) => assert_eq!(n, "a.jpg"),
        _ => panic!("expected an entry"),
    }
    assert!(matches!(extract_cover("x.pdf", &vec![]), Ok(CoverSource::PdfFirstPage)));
    let err = extract_cover("x.cbz", &vec!["c.txt".to_string()]).err().unwrap();
    assert_eq!(err.message(), "No se encontraron imágenes en: x.cbz");
    assert!(matches!(extract_page_to_memory("a.pdf", "0002"), Ok(PageSource::PdfPage(2))));
    assert!(matches!(extract_page_to_memory("a.pdf", "x"), Err(ExtractError::InvalidPdfPage)));
    match extract_page_to_memory("a.cbr", "p1.jpg").unwrap() {
        PageSource::Entry(n) => assert_eq!(n, "p1.jpg"),
        _ => panic!("expected an entry"),
    }
}

#[test]
fn split_natural_parts_rebuild_the_name() {
    let s: Vec<char> = "page12a".chars().collect();
    let parts = babelcomics::natural::split_natural(&s);
    let strs: Vec<String> = parts.iter().map(|p| p.iter().collect()).collect();
    assert_eq!(strs, vec!["page", "12", "a"]);
    assert!(babelcomics::natural::split_natural(&[]).is_empty());
}

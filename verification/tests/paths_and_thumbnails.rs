use babelcomics::paths::{cover_file_name, cover_id_prefix, migrated_subdirs, shard_bucket, ThumbnailPaths};
use babelcomics::thumbnail::{all_sizes, page_path_in, page_thumb_of, resize_to_height_jpeg, resize_to_height_rgb, CardSize, ReaderFilter};

fn base() -> ThumbnailPaths {
    ThumbnailPaths::initialize_thumbnails_base(Some("/t".to_string()), Some("/home/u".to_string()))
}

#[test]
fn thumbnails_base() {
    assert_eq!(base().thumbnails_dir(), "/t");
    let p = ThumbnailPaths::initialize_thumbnails_base(Some(String::new()), Some("/home/u".to_string()));
    assert_eq!(p.thumbnails_dir(), "/home/u/.local/share/babelcomics/thumbnails");
    let p = ThumbnailPaths::initialize_thumbnails_base(None, None);
    assert_eq!(p.thumbnails_dir(), "./.local/share/babelcomics/thumbnails");
    let mut p = base();
    p.set_thumbnails_base("/other".to_string());
    assert_eq!(p.thumbnails_dir(), "/other");
}

#[test]
fn comic_thumbnails_are_sharded() {
    let p = base();
    assert_eq!(p.comic_thumbnail_path(1234, CardSize::Medium), "/t/comics/medium/1000/1234.jpg");
    assert_eq!(p.comic_thumbnail_path(999, CardSize::Small), "/t/comics/small/0/999.jpg");
    assert_eq!(p.comic_thumbnail_path(-1500, CardSize::Large), "/t/comics/large/-1000/-1500.jpg");
    assert_eq!(shard_bucket(1999), 1000);
    assert_eq!(shard_bucket(-1), 0);
}

#[test]
fn other_thumbnail_paths() {
    let p = base();
    assert_eq!(p.volume_thumbnail_path(5), "/t/volumes/5.jpg");
    assert_eq!(p.publisher_thumbnail_path(5), "/t/publishers/5.jpg");
    assert_eq!(p.comic_page_thumbnail_path(3, 7), "/t/comic_pages/3/page_7.jpg");
    assert_eq!(
        p.comicbook_info_thumbnail_path("Batman: The Long.Halloween", 42, "c.jpg"),
        "/t/comicbook_info/Batman The LongHalloween_42/c.jpg"
    );
    let dirs = p.thumbnail_dirs();
    assert_eq!(dirs[0], "/t/comics/small");
    assert_eq!(dirs[6], "/t/comic_pages");
    assert_eq!(migrated_subdirs(), vec!["comics", "volumes", "publishers", "comicbook_info", "comic_pages"]);
}

#[test]
fn cover_names_from_urls() {
    assert_eq!(cover_file_name("http://cv/x/12345-cover.jpg"), "12345-cover.jpg");
    assert_eq!(cover_file_name("plain.jpg"), "plain.jpg");
    assert_eq!(cover_id_prefix("12345-cover.jpg"), Some("12345-".to_string()));
    assert_eq!(cover_id_prefix("cover.jpg"), None);
    assert_eq!(cover_id_prefix("-x"), Some("-".to_string()));
}

#[test]
fn card_sizes() {
    assert_eq!(CardSize::from_db(0), CardSize::Small);
    assert_eq!(CardSize::from_db(2), CardSize::Large);
    assert_eq!(CardSize::from_db(200), CardSize::Medium);
    assert_eq!(CardSize::Large.to_db(), 2);
    assert_eq!(CardSize::Medium.combo_index(), 1);
    assert_eq!(CardSize::from_combo_index(0), CardSize::Small);
    assert_eq!(CardSize::from_combo_index(9), CardSize::Medium);
    assert_eq!(CardSize::Small.dims(), (160, 220));
    assert_eq!(CardSize::Large.dims(), (320, 430));
    assert_eq!(CardSize::Medium.dir_name(), "medium");
    assert_eq!(CardSize::default(), CardSize::Medium);
    assert_eq!(all_sizes(), vec![CardSize::Small, CardSize::Medium, CardSize::Large]);
}

#[test]
fn reader_filters() {
    assert_eq!(ReaderFilter::from_db(0), ReaderFilter::Nearest);
    assert_eq!(ReaderFilter::from_db(1), ReaderFilter::Triangle);
    assert_eq!(ReaderFilter::from_db(2), ReaderFilter::CatmullRom);
    assert_eq!(ReaderFilter::from_db(9), ReaderFilter::Lanczos3);
    assert_eq!(ReaderFilter::CatmullRom.to_db(), 2);
    assert_eq!(ReaderFilter::Lanczos3.combo_index(), 3);
    assert_eq!(ReaderFilter::from_combo_index(1), ReaderFilter::Triangle);
    assert_eq!(ReaderFilter::default(), ReaderFilter::Lanczos3);
}

#[test]
fn page_cache_paths() {
    assert_eq!(page_path_in("12", "/d"), "/d/page-12.jpg");
    assert_eq!(page_path_in("sub/p1.png", "/d"), "/d/p1.png");
    assert_eq!(page_path_in("", "/d"), "/d/page-.jpg");
}

#[test]
fn thumbnails_are_jpeg() {
    let img = image::GrayImage::from_pixel(9, 8, image::Luma([128u8]));
    let mut png = Vec::new();
    img.write_to(&mut std::io::Cursor::new(&mut png), image::ImageFormat::Png).unwrap();
    let jpg = resize_to_height_jpeg(&png, 4).unwrap();
    assert_eq!(&jpg[0..2], &[0xFF, 0xD8]);
    assert_ne!(jpg, png);
    assert_eq!(resize_to_height_jpeg(b"junk", 4), None);
}

fn png_of(w: u32, h: u32, rgb: [u8; 3]) -> Vec<u8> {
    let img = image::RgbImage::from_pixel(w, h, image::Rgb(rgb));
    let mut png = Vec::new();
    img.write_to(&mut std::io::Cursor::new(&mut png), image::ImageFormat::Png).unwrap();
    png
}

#[test]
fn rgb_thumbnails_keep_the_aspect() {
    let png = png_of(20, 10, [10, 200, 30]);
    let (data, w, h, stride) = resize_to_height_rgb(&png, 4).unwrap();
    assert_eq!((w, h, stride), (8, 4, 24));
    assert_eq!(data.len(), 8 * 4 * 3);
    assert_eq!(&data[0..3], &[10, 200, 30]);
    assert_ne!(data, png);
    assert!(resize_to_height_rgb(b"junk", 4).is_none());
}

#[test]
fn page_thumbs_are_160_wide() {
    let png = png_of(320, 480, [255, 0, 0]);
    let t = page_thumb_of(&png, ReaderFilter::Nearest).unwrap();
    assert_eq!((t.width, t.height, t.rowstride), (160, 240, 480));
    assert_eq!(t.data.len(), 160 * 240 * 3);
    assert_eq!(&t.data[0..3], &[255, 0, 0]);
    assert!(page_thumb_of(b"not an image", ReaderFilter::Lanczos3).is_none());
}

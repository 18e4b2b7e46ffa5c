pub mod text;
pub mod topology;
pub mod pathutil;
pub mod natural;
pub mod scanner;
pub mod extractor;
pub mod cover_hash;
pub mod suggestions;
pub mod background_jobs;
pub mod organizer;
pub mod thumbnail;
pub mod paths;
pub mod models;
pub mod search;
pub mod comicvine;
pub mod downloads;
pub mod publisher_import;
pub mod extraction_registry;
pub mod scan;
pub mod grid;
pub mod reader;
pub mod preferences;
pub mod clip_report;
pub mod page_texts;
pub mod tabs;
pub mod comic_view;
pub mod job_rows;
pub mod cv_search;
pub mod demo_images;
pub mod download_run;

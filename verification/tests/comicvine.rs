use babelcomics::comicvine::{
    api_error_is_ok, build_filter, format_resource_id, id_filters, next_issues_offset, page_params,
    rate_limit_wait, remaining_page_offsets, resource_prefix, sanitize_query, ComicVineClient, ComicVineError,
    CvPublisherResult, CvVolumeResult,
};

#[test]
fn print_comicvine_query_url() {
    let api_key = "TU_API_KEY_AQUI";
    let client = ComicVineClient::new(api_key.to_string(), None).unwrap();
    let query = Some("The Amazing Spider-Man");
    let publisher_id = Some("31");
    let filter_str = build_filter(&vec![query.map(|q| format!("name:{}", q)), publisher_id.map(|p| format!("publisher:{}", p))]);
    let params = page_params(100, 0, &filter_str);
    let url = client.build_url("volumes/", &params);
    println!("\n\n🔗 --- COPIA ESTA URL AL NAVEGADOR (VOLÚMENES) ---");
    println!("{}", url);
    println!("--------------------------------------\n");
    assert_eq!(
        url,
        "https://comicvine.gamespot.com/api/volumes/?api_key=TU_API_KEY_AQUI&limit=100&offset=0&filter=name:The%20Amazing%20Spider-Man,publisher:31&format=json"
    );
}

#[test]
fn print_publisher_query_url() {
    let api_key = "TU_API_KEY_AQUI";
    let client = ComicVineClient::new(api_key.to_string(), None).unwrap();
    let name_filter = Some("DC Comics");
    let mut params: Vec<(String, String)> = vec![("limit".into(), "50".to_string()), ("offset".into(), "0".to_string())];
    if let Some(name) = name_filter {
        params.push(("filter".into(), format!("name:{}", sanitize_query(name))));
    }
    let url = client.build_url("publishers/", &params);
    println!("\n\n🔗 --- COPIA ESTA URL AL NAVEGADOR (EDITORIALES) ---");
    println!("{}", url);
    println!("--------------------------------------\n");
    assert_eq!(
        url,
        "https://comicvine.gamespot.com/api/publishers/?api_key=TU_API_KEY_AQUI&limit=50&offset=0&filter=name:DC%20Comics&format=json"
    );
}

#[test]
fn resource_ids() {
    assert_eq!(resource_prefix("volume"), Some("4050-"));
    assert_eq!(resource_prefix("publisher"), Some("4010-"));
    assert_eq!(resource_prefix("issue"), Some("4000-"));
    assert_eq!(resource_prefix("story"), None);
    assert_eq!(format_resource_id("123", "volume"), "4050-123");
    assert_eq!(format_resource_id("4050-123", "volume"), "4050-123");
    assert_eq!(format_resource_id("123", "story"), "123");
}

#[test]
fn query_encoding_and_filters() {
    assert_eq!(sanitize_query("Spider-Man & Co?"), "Spider-Man%20%26%20Co%3F");
    assert_eq!(sanitize_query("100% #1+"), "100%25%20%231%2B");
    assert_eq!(build_filter(&vec![Some("name:x".into()), None, Some("publisher:31".into())]), "name:x,publisher:31");
    assert_eq!(build_filter(&vec![None, None]), "");
    assert_eq!(page_params(100, 0, ""), vec![("limit".to_string(), "100".to_string()), ("offset".to_string(), "0".to_string())]);
}

#[test]
fn client_configuration() {
    assert_eq!(ComicVineClient::new(String::new(), None).err(), Some(ComicVineError::EmptyApiKey));
    assert_eq!(ComicVineError::EmptyApiKey.message(), "La API Key no puede estar vacía.");
    let c = ComicVineClient::new("k".into(), Some("http://x/api".into())).unwrap();
    assert_eq!(c.base_url, "http://x/api/");
    assert_eq!(c.build_url("issue/4000-1", &vec![]), "http://x/api/issue/4000-1/?api_key=k&format=json");
    assert_eq!(c.build_url("", &vec![]), "http://x/api/?api_key=k&format=json");
}

#[test]
fn answers_and_paging() {
    assert!(api_error_is_ok(Some("OK")));
    assert!(!api_error_is_ok(Some("Invalid API Key")));
    assert!(api_error_is_ok(None));
    assert_eq!(remaining_page_offsets(250, 100), vec![100, 200]);
    assert_eq!(remaining_page_offsets(100, 100), Vec::<usize>::new());
    assert_eq!(remaining_page_offsets(0, 0), Vec::<usize>::new());
    assert_eq!(next_issues_offset(100, 100, 250, 0), Some(100));
    assert_eq!(next_issues_offset(250, 50, 250, 200), None);
    assert_eq!(next_issues_offset(0, 0, 10, 0), None);
    assert_eq!(rate_limit_wait(100), 400);
    assert_eq!(rate_limit_wait(600), 0);
}

#[test]
fn issue_id_groups() {
    assert_eq!(id_filters(&vec![1, 2, 3]), vec!["id:1|2|3".to_string()]);
    let ids: Vec<u64> = (1..=150).collect();
    let f = id_filters(&ids);
    assert_eq!(f.len(), 2);
    assert!(f[0].starts_with("id:1|2|"));
    assert!(f[0].ends_with("|100"));
    assert!(f[1].starts_with("id:101|"));
    assert!(id_filters(&vec![]).is_empty());
}

#[test]
fn typed_results() {
    assert!(CvVolumeResult::from_fields(None, Some("x".into()), None, None, None, None).is_none());
    let v = CvVolumeResult::from_fields(Some(5), None, Some("Marvel".into()), None, None, Some(12)).unwrap();
    assert_eq!(v.cv_id, 5);
    assert_eq!(v.name, "");
    assert_eq!(v.publisher_name, "Marvel");
    assert_eq!(v.start_year, "N/A");
    assert_eq!(v.count_of_issues, 12);
    let p = CvPublisherResult::from_fields(Some(7), Some("DC".into()), None, None, None, None, Some(3)).unwrap();
    assert_eq!(p.count_of_issues, 3);
    let p = CvPublisherResult::from_fields(Some(7), None, None, None, None, Some(40), Some(3)).unwrap();
    assert_eq!(p.count_of_issues, 40);
}

#[test]
fn sanitized_query_decodes_back() {
    let s = "Spider Man & Co? 100% #1+";
    let enc = babelcomics::comicvine::sanitize_query(s);
    assert_eq!(enc, "Spider%20Man%20%26%20Co%3F%20100%25%20%231%2B");
    // percent-decoding by hand
    let b = enc.as_bytes();
    let mut out = Vec::new();
    let mut i = 0;
    while i < b.len() {
        if b[i] == b'%' {
            out.push(u8::from_str_radix(&enc[i + 1..i + 3], 16).unwrap());
            i += 3;
        } else {
            out.push(b[i]);
            i += 1;
        }
    }
    assert_eq!(String::from_utf8(out).unwrap(), s);
}

#[test]
fn sanitized_query_is_url_safe() {
    let enc = sanitize_query("Spider Man & Co? a+b #1");
    assert!(!enc.chars().any(|c| " #&+?".contains(c)));
    assert_eq!(sanitize_query("name:Batman|year,2011"), "name:Batman|year,2011");
}

use std::io::Write;

use qiniu_cdn_manager::log::{
    cache_entry_path, decode_object, descriptors_for, export_file_name, join_lines, merge_lines,
    plan_days, FetchCache, FetchError, LogData, LogFilter, LogResponse,
};

fn gz(text: &[u8]) -> Vec<u8> {
    let mut e = flate2::write::GzEncoder::new(Vec::new(), flate2::Compression::default());
    e.write_all(text).unwrap();
    e.finish().unwrap()
}

fn strings(v: &[&str]) -> Vec<String> {
    v.iter().map(|s| s.to_string()).collect()
}

fn descriptor(name: &str, md5: &str) -> LogData {
    LogData { name: name.to_string(), size: 1, mtime: 2, url: format!("https://x/{name}"), md5: md5.to_string() }
}

#[test]
fn range_validation_refuses_reversed_and_long_ranges() {
    assert_eq!(plan_days("2024-07-16", "2024-07-15"), Err(FetchError::StartAfterEnd));
    assert_eq!(plan_days("2024-07-01", "2024-07-31"), Err(FetchError::SpanTooLong));
    assert_eq!(plan_days("2024-07-01", "x"), Err(FetchError::BadDate));
    let ok = plan_days("2024-07-01", "2024-07-30").unwrap();
    assert_eq!(ok.len(), 30);
    assert_eq!(ok[0], "2024-07-01");
    assert_eq!(ok[29], "2024-07-30");
    assert_eq!(plan_days("2024-02-28", "2024-03-01").unwrap(), strings(&["2024-02-28", "2024-02-29", "2024-03-01"]));
}

#[test]
fn cache_second_fetch_is_a_hit_with_same_bytes() {
    let mut cache = FetchCache::new();
    let d = descriptor("a/b/x.gz", "sum1");
    assert!(cache.get(&d.md5).is_none());
    cache.put(d.md5.clone(), vec![1, 2, 3]);
    assert_eq!(cache.get(&d.md5), Some(&vec![1, 2, 3]));
    // Same content under another name shares the entry; another checksum does not.
    let twin = descriptor("other.gz", "sum1");
    assert_eq!(cache.get(&twin.md5), Some(&vec![1, 2, 3]));
    assert!(cache.get("sum2").is_none());
    cache.put("sum1".to_string(), vec![9]);
    assert_eq!(cache.get("sum1"), Some(&vec![9]));
}

#[test]
fn cache_entries_live_under_their_checksum() {
    assert_eq!(cache_entry_path("abc", "d/2024/x.gz"), "/tmp/qiniu/abc/x.gz");
    assert_eq!(cache_entry_path("abc", "x.gz"), "/tmp/qiniu/abc/x.gz");
}

#[test]
fn objects_decode_into_lines() {
    let lines = decode_object(&gz(b"one\r\ntwo\n\nthree")).unwrap();
    assert_eq!(lines, strings(&["one", "two", "", "three"]));
    assert_eq!(decode_object(&gz(b"")).unwrap(), Vec::<String>::new());
    assert_eq!(decode_object(&gz(b"a\n")).unwrap(), strings(&["a"]));
    assert_eq!(decode_object(b"not gzip"), Err(FetchError::Decode));
    assert_eq!(decode_object(&gz(b"ok\n\xff\xfe\n")), Err(FetchError::Decode));
}

#[test]
fn merged_lines_keep_every_object() {
    let parts = vec![strings(&["a", "b"]), vec![], strings(&["c"])];
    assert_eq!(merge_lines(&parts), strings(&["a", "b", "c"]));
}

#[test]
fn filter_includes_and_excludes() {
    let f = LogFilter::new(&strings(&["error", "!!timeout"]));
    assert!(f.matches("GET /a error 500"));
    assert!(!f.matches("GET /a error timeout"));
    assert!(!f.matches("GET /a ok"));
    assert!(!f.matches("timeout only"));
    let lines = strings(&["error x", "error timeout", "fine", "an error"]);
    assert_eq!(f.count(&lines), 2);
    assert_eq!(f.select(&lines), strings(&["error x", "an error"]));
    let none = LogFilter::new(&vec![]);
    assert_eq!(none.count(&lines), 4);
}

#[test]
fn export_names_and_contents() {
    assert_eq!(
        export_file_name("a.com", &strings(&["error", "!!x"]), "2024-07-01", "2024-07-02"),
        Some("a.com.error-2024-07-01-2024-07-02.log".to_string())
    );
    assert_eq!(export_file_name("a.com", &vec![], "s", "e"), None);
    assert_eq!(join_lines(&strings(&["a", "b", "c"])), "a\nb\nc");
    assert_eq!(join_lines(&vec![]), "");
}

#[test]
fn catalog_lookup_by_domain() {
    let resp = LogResponse {
        code: Some(200),
        error: String::new(),
        data: Some(vec![
            ("a.com".to_string(), vec![descriptor("x.gz", "1")]),
            ("b.com".to_string(), vec![descriptor("y.gz", "2"), descriptor("z.gz", "3")]),
        ]),
    };
    assert_eq!(descriptors_for(&resp, "b.com").len(), 2);
    assert_eq!(descriptors_for(&resp, "a.com")[0].md5, "1");
    assert!(descriptors_for(&resp, "c.com").is_empty());
    let empty = LogResponse { code: Some(200), error: String::new(), data: None };
    assert!(descriptors_for(&empty, "a.com").is_empty());
}

use qiniu_cdn_manager::log::{download_count, sort_by_count, trim, unzipped_path, url_counts, url_of_record};
use qiniu_cdn_manager::text::chars_of;

fn text(v: Vec<char>) -> String {
    v.into_iter().collect()
}

#[test]
fn url_of_log_line() {
    let line = "1.2.3.4 - - [16/Jul/2024:10:00:00 +0800] \"GET /a/b.js HTTP/1.1\" 200 10";
    assert_eq!(text(url_of_record(&chars_of(line))), "/a/b.js");
    assert_eq!(text(url_of_record(&chars_of("no quotes here"))), "");
    assert_eq!(text(url_of_record(&chars_of("x \"GET\" y"))), "");
}

#[test]
fn trimming_follows_std() {
    for s in ["  a b  ", "\t\n x\u{3000}", "", "   ", "abc"].iter() {
        assert_eq!(text(trim(&chars_of(s))), s.trim());
    }
}

#[test]
fn urls_counted_per_ip_and_sorted() {
    let lines = strings(&[
        " 1.2.3.4 - \"GET /a HTTP/1.1\" 200",
        "1.2.3.4 - \"GET /b HTTP/1.1\" 200",
        "1.2.3.4 - \"GET /a HTTP/1.1\" 200",
        "5.6.7.8 - \"GET /a HTTP/1.1\" 200",
        "1.2.3.4 - no request",
    ]);
    let counts = sort_by_count(url_counts(&lines, "1.2.3.4"));
    assert_eq!(counts, vec![("/a".to_string(), 2), ("/b".to_string(), 1)]);
    assert!(url_counts(&lines, "9.9.9.9").is_empty());
}

#[test]
fn download_limits_and_unzipped_names() {
    assert_eq!(download_count(5, None), 5);
    assert_eq!(download_count(5000, None), 1000);
    assert_eq!(download_count(5, Some(2)), 2);
    assert_eq!(download_count(5, Some(0)), 0);
    assert_eq!(download_count(5, Some(-3)), 0);
    assert_eq!(unzipped_path("logs/a.log.gz"), Some("logs/a.log".to_string()));
    assert_eq!(unzipped_path("logs/a.log"), None);
    assert_eq!(unzipped_path(".gz"), Some(String::new()));
}

use qiniu_cdn_manager::log::cache_dir;

#[test]
fn fetch_through_cache_downloads_once() {
    let mut cache = FetchCache::new();
    assert_eq!(cache.fetch("sum1", None), None);
    assert_eq!(cache.fetch("sum1", Some(vec![1, 2])), Some(vec![1, 2]));
    assert_eq!(cache.fetch("sum1", None), Some(vec![1, 2]));
    assert_eq!(cache.fetch("sum1", Some(vec![9])), Some(vec![1, 2]));
    assert_eq!(cache.get("sum1"), Some(&vec![1, 2]));
    assert_eq!(cache_dir("abc"), "/tmp/qiniu/abc");
}

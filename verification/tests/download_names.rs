use bumble_bee::downloads::{
    choose_free_filename, content_disposition_filename_with, fallback_filename, filename_from_path,
    filename_from_url, filename_star_encodings, parse_content_disposition_filename,
    partial_path, plan_download, plan_download_for_url, sanitize_filename, unique_filename_candidate,
    DownloadError,
};
use url::Url;

#[test]
fn sanitizes_windows_paths() {
    assert_eq!(sanitize_filename("../secret.txt"), ".._secret.txt");
    assert_eq!(sanitize_filename("CON"), "_CON");
    assert_eq!(sanitize_filename("hello?.txt"), "hello_.txt");
}

#[test]
fn avoids_collisions() {
    assert_eq!(unique_filename_candidate("file.txt", 0), Some("file.txt".to_string()));
    assert_eq!(unique_filename_candidate("file.txt", 1), Some("file (1).txt".to_string()));
}

#[test]
fn parses_content_disposition() {
    assert_eq!(
        parse_content_disposition_filename(
            r#"attachment; filename="report.pdf"; filename*=UTF-8''report%20final.pdf"#
        ),
        Some("report final.pdf".to_string())
    );
}

#[test]
fn sanitize_edge_cases() {
    assert_eq!(sanitize_filename(""), "download");
    assert_eq!(sanitize_filename("  .. "), "download");
    assert_eq!(sanitize_filename("  name.txt.  "), "name.txt");
    assert_eq!(sanitize_filename("nul"), "_nul");
    assert_eq!(sanitize_filename("COM10"), "COM10");
    assert_eq!(sanitize_filename("a\tb"), "a_b");
    assert_eq!(sanitize_filename("x/y\\z|w*v<u>t:s\"r"), "x_y_z_w_v_u_t_s_r");
    let long = "a".repeat(300);
    assert_eq!(sanitize_filename(&long), "a".repeat(240));
    let wide = "é".repeat(250);
    assert_eq!(sanitize_filename(&wide).chars().count(), 240);
}

#[test]
fn content_disposition_variants() {
    assert_eq!(parse_content_disposition_filename("inline"), None);
    assert_eq!(parse_content_disposition_filename("attachment; filename=a.txt"), Some("a.txt".to_string()));
    assert_eq!(parse_content_disposition_filename("attachment; FILENAME=\"x.txt\""), Some("x.txt".to_string()));
    assert_eq!(parse_content_disposition_filename("attachment; bogus; filename=a.txt"), None);
    assert_eq!(
        parse_content_disposition_filename("attachment; filename*=UTF-8''%FF; filename=b.txt"),
        Some("b.txt".to_string())
    );
    assert_eq!(
        parse_content_disposition_filename("attachment; filename=a.txt; filename=b.txt"),
        Some("b.txt".to_string())
    );
    assert_eq!(
        parse_content_disposition_filename("attachment; filename*=UTF-8''caf%C3%A9.txt; filename=x"),
        Some("café.txt".to_string())
    );
}

#[test]
fn names_from_url_paths() {
    assert_eq!(filename_from_path("/files/report.pdf"), "report.pdf");
    assert_eq!(filename_from_path("/files/"), "download");
    assert_eq!(filename_from_path(""), "download");
    assert_eq!(filename_from_path("/a/CON"), "_CON");
    assert_eq!(filename_from_path("/%3F.txt"), "%3F.txt");
    let url = Url::parse("https://example.com/dir/file.zip?x=1").unwrap();
    assert_eq!(filename_from_url(&url), "file.zip");
    let root = Url::parse("https://example.com").unwrap();
    assert_eq!(filename_from_url(&root), "download");
}

#[test]
fn planning_a_download() {
    assert_eq!(plan_download("ftp", None, "/a.txt"), Err(DownloadError::UnsupportedScheme));
    assert_eq!(plan_download("http", None, "/a/b.txt"), Ok("b.txt".to_string()));
    assert_eq!(plan_download("https", Some("   "), "/a/b.txt"), Ok("b.txt".to_string()));
    assert_eq!(plan_download("https", Some("x?.txt"), "/a/b.txt"), Ok("x_.txt".to_string()));
    let url = Url::parse("HTTPS://example.com/a/report.pdf").unwrap();
    assert_eq!(plan_download_for_url(&url, None), Ok("report.pdf".to_string()));
    let ftp = Url::parse("ftp://example.com/a.txt").unwrap();
    assert_eq!(plan_download_for_url(&ftp, Some("a.txt")), Err(DownloadError::UnsupportedScheme));
    assert_eq!(DownloadError::UnsupportedScheme.message(), "Only HTTP and HTTPS downloads are supported");
}

#[test]
fn numbered_and_fallback_names() {
    assert_eq!(unique_filename_candidate("archive.tar.gz", 2), Some("archive.tar (2).gz".to_string()));
    assert_eq!(unique_filename_candidate(".bashrc", 1), Some(".bashrc (1)".to_string()));
    assert_eq!(unique_filename_candidate("noext", 3), Some("noext (3)".to_string()));
    assert_eq!(unique_filename_candidate("a.b", 9999), Some("a (9999).b".to_string()));
    assert_eq!(unique_filename_candidate("a.b", 10000), None);
    assert_eq!(fallback_filename("file.txt", "abc"), "file-abc.txt");
    assert_eq!(fallback_filename("file", "abc"), "file-abc");
    assert_eq!(partial_path("/tmp/a.txt"), "/tmp/a.txt.part");
}

#[test]
fn sanitized_names_are_safe() {
    let samples = [
        "", ".", "..", "...", " ", "con", "LPT9.", "a/b", "\u{7f}x", "\u{85}y", "name", "..\\..\\win.ini",
        "COM1 ", "_", "aux.txt", "trailing. . .",
    ];
    let long = "x.".repeat(200);
    for input in samples.iter().copied().chain(std::iter::once(long.as_str())) {
        let out = sanitize_filename(input);
        let n = out.chars().count();
        assert!((1..=240).contains(&n), "{input:?} -> {out:?}");
        assert!(out != "." && out != "..", "{input:?} -> {out:?}");
        assert!(!out.chars().any(|c| c.is_control() || "<>:\"/\\|?*".contains(c)), "{input:?} -> {out:?}");
        let upper = out.to_ascii_uppercase();
        let reserved = ["CON", "PRN", "AUX", "NUL", "COM1", "COM2", "COM3", "COM4", "COM5", "COM6", "COM7", "COM8",
            "COM9", "LPT1", "LPT2", "LPT3", "LPT4", "LPT5", "LPT6", "LPT7", "LPT8", "LPT9"];
        assert!(!reserved.contains(&upper.as_str()), "{input:?} -> {out:?}");
    }
}

#[test]
fn numbered_names_never_repeat() {
    let mut seen = std::collections::HashSet::new();
    for n in 1..=200u32 {
        let name = unique_filename_candidate("photo.jpeg", n).unwrap();
        assert_ne!(name, "photo.jpeg");
        assert!(seen.insert(name));
    }
}

#[test]
fn disposition_decisions_from_decoded_values() {
    let value = "attachment; filename=a.txt; filename*=UTF-8''x%20y.txt";
    assert_eq!(filename_star_encodings(value), vec![None, Some("x%20y.txt".to_string())]);
    assert_eq!(
        content_disposition_filename_with(value, &vec![None, Some("X".to_string())]),
        Some("X".to_string())
    );
    assert_eq!(content_disposition_filename_with(value, &vec![None, None]), Some("a.txt".to_string()));
    assert_eq!(content_disposition_filename_with(value, &vec![]), Some("a.txt".to_string()));
    assert_eq!(content_disposition_filename_with("inline; junk", &vec![Some("z".to_string())]), None);
}

fn is_v4_uuid_text(t: &str) -> bool {
    let c: Vec<char> = t.chars().collect();
    c.len() == 36
        && c.iter().enumerate().all(|(i, ch)| {
            if [8, 13, 18, 23].contains(&i) {
                *ch == '-'
            } else {
                ch.is_ascii_digit() || ('a'..='f').contains(ch)
            }
        })
        && c[14] == '4'
        && ['8', '9', 'a', 'b'].contains(&c[19])
}

#[test]
fn free_filename_is_first_candidate_not_taken() {
    assert_eq!(choose_free_filename("a.txt", &[]), "a.txt");
    assert_eq!(choose_free_filename("a.txt", &["a.txt".to_string()]), "a (1).txt");
    let taken = vec!["a.txt".to_string(), "a (1).txt".to_string(), "a (3).txt".to_string()];
    assert_eq!(choose_free_filename("a.txt", &taken), "a (2).txt");
    assert_eq!(choose_free_filename("a.txt", &["other".to_string()]), "a.txt");
}

#[test]
fn free_filename_falls_back_to_a_random_uuid() {
    let taken: Vec<String> = (0..=9999).map(|k| unique_filename_candidate("a.txt", k).unwrap()).collect();
    let name = choose_free_filename("a.txt", &taken);
    assert!(name.starts_with("a-"));
    assert!(name.ends_with(".txt"));
    let token = &name[2..name.len() - 4];
    assert!(is_v4_uuid_text(token), "{token}");
    let again = choose_free_filename("a.txt", &taken);
    assert_ne!(name, again);
}

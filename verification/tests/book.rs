use novel::book::{
    book_temp_dir, chapter_cache_paths, content_img_prefix, cover_cache_path, epub_out_path,
    hash_url, images_temp_dir, img_file_prefix, keyed_cache_path, plan_book, remote_cache_path,
    remote_epub_path, strip_scheme,
};

fn entry(url: Option<&str>, title: &str) -> (Option<String>, String) {
    (url.map(|u| u.to_string()), title.to_string())
}

#[test]
fn plan_groups_chapters_under_volumes() {
    let menu = vec![
        entry(Some("u0"), "Prologue"),
        entry(None, "Vol 1"),
        entry(Some("u1"), "C1"),
        entry(Some("u2"), ""),
        entry(Some("u3"), "C2"),
        entry(None, "Vol 2"),
        entry(Some("u4"), "C3"),
    ];
    let plan = plan_book(&menu);
    let chapters: Vec<(usize, &str, &str, &str)> = plan
        .chapters
        .iter()
        .map(|c| (c.index, c.url.as_str(), c.title.as_str(), c.file_name.as_str()))
        .collect();
    assert_eq!(
        chapters,
        vec![
            (0, "u0", "Prologue", "Text/0.xhtml"),
            (2, "u1", "C1", "Text/2.xhtml"),
            (3, "u3", "C2", "Text/3.xhtml"),
            (5, "u4", "C3", "Text/5.xhtml"),
        ]
    );
    assert_eq!(plan.navs.len(), 3);
    assert_eq!(plan.navs[0].title, "Prologue");
    assert_eq!(plan.navs[0].file_name, "Text/0.xhtml");
    assert!(plan.navs[0].children.is_empty());
    assert_eq!(plan.navs[1].title, "Vol 1");
    assert_eq!(plan.navs[1].file_name, "2.xhtml");
    assert_eq!(
        plan.navs[1].children,
        vec![
            ("C1".to_string(), "Text/2.xhtml".to_string()),
            ("C2".to_string(), "Text/3.xhtml".to_string())
        ]
    );
    assert_eq!(plan.navs[2].title, "Vol 2");
    assert_eq!(plan.navs[2].file_name, "5.xhtml");
    assert_eq!(plan.navs[2].children, vec![("C3".to_string(), "Text/5.xhtml".to_string())]);
}

#[test]
fn plan_of_empty_menu() {
    let plan = plan_book(&Vec::new());
    assert!(plan.chapters.is_empty());
    assert!(plan.navs.is_empty());
    let plan = plan_book(&vec![entry(None, "")]);
    assert!(plan.navs.is_empty());
}

#[test]
fn hash_url_is_a_decimal_number_and_stable() {
    let a = hash_url("https://www.wenku8.net/book/1.htm");
    assert!(!a.is_empty());
    assert!(a.chars().all(|c| c.is_ascii_digit()));
    assert_eq!(a, hash_url("https://www.wenku8.net/book/1.htm"));
    assert_eq!(a.parse::<u64>().unwrap().to_string(), a);
    let mut h = std::collections::hash_map::DefaultHasher::new();
    std::hash::Hash::hash("https://www.wenku8.net/book/1.htm", &mut h);
    assert_eq!(a, std::hash::Hasher::finish(&h).to_string());
    assert_ne!(a, hash_url("https://www.wenku8.net/book/2.htm"));
}

#[test]
fn cache_locations() {
    assert_eq!(book_temp_dir("12"), "temp/12");
    assert_eq!(images_temp_dir("12"), "temp/12/Images");
    assert_eq!(cover_cache_path("12"), "temp/12/Images/cover.jpg");
    let m = keyed_cache_path("12", "https://x", ".m");
    assert_eq!(m, format!("temp/12/{}.m", hash_url("https://x")));
    let (h, s) = chapter_cache_paths("12", 7, "https://x/c");
    let hash = hash_url("https://x/c");
    assert_eq!(h, format!("temp/12/007-{hash}.h"));
    assert_eq!(s, format!("temp/12/007-{hash}.s"));
    assert_eq!(content_img_prefix(4), "../Images/4-");
    assert_eq!(img_file_prefix(4), "4-");
    assert_eq!(epub_out_path("书名"), "out/书名.epub");
}

#[test]
fn remote_locations() {
    assert_eq!(strip_scheme("https://www.wenku8.net/book/1.htm"), "www.wenku8.net/book/1.htm");
    assert_eq!(strip_scheme("http://a/http://b"), "a/b");
    assert_eq!(
        remote_epub_path("2024-01-02", "https://www.bilinovel.com/novel/9.html", "9", "T"),
        "epub/data/2024-01-02/www.bilinovel.com/novel/9.html/9/T.epub"
    );
    assert_eq!(
        remote_cache_path("https://www.bilinovel.com/novel/9.html", "9"),
        "epub/data/cache/www.bilinovel.com/novel/9.html/9.zip"
    );
}

use novel::img::{get_img_src, ImgList, ImgSrc};

#[test]
fn image_paths() {
    let i = ImgSrc::new("3-1.jpg".to_string(), "https://img/x.jpg".to_string(), "2345".to_string());
    assert_eq!(ImgSrc::dir_name(), "Images");
    assert_eq!(i.epub_path(), "Images/3-1.jpg");
    assert_eq!(i.cache_path(), "temp/2345/Images/3-1.jpg");
    assert_eq!(i.cache_path(), format!("temp/2345/{}", i.epub_path()));
    assert_eq!(i.url(), "https://img/x.jpg");
    assert_eq!(i.filename(), "3-1.jpg");
}

#[test]
fn image_list_skips_blank_lines_and_keeps_numbering() {
    let v = get_img_src("7", "http://a.jpg\n  \nhttp://b.jpg", "2-");
    assert_eq!(v.len(), 2);
    assert_eq!(v[0].url(), "http://a.jpg");
    assert_eq!(v[0].filename(), "2-0.jpg");
    assert_eq!(v[1].url(), "http://b.jpg");
    assert_eq!(v[1].filename(), "2-2.jpg");
    assert_eq!(v[1].cache_path(), "temp/7/Images/2-2.jpg");
    assert!(get_img_src("7", "", "p").is_empty());
    assert!(get_img_src("7", "\n \n", "p").is_empty());
}

#[test]
fn push_img_groups_by_page() {
    let mut l = ImgList::new();
    l.push_img("p1.html", "a");
    l.push_img("p2.html", "b");
    l.push_img("p1.html", "c");
    l.push_img("", "d");
    l.push_img("p3.html", "");
    assert_eq!(l.inner.len(), 2);
    assert_eq!(l.inner[0].0, "p1.html");
    assert_eq!(l.inner[0].1, vec!["a", "c"]);
    assert_eq!(l.inner[1].0, "p2.html");
    assert_eq!(l.inner[1].1, vec!["b"]);
    assert_eq!(l.to_string(), "p1.html\na\nc\np2.html\nb");
}

#[test]
fn image_list_from_text() {
    let l = ImgList::from("orphan\nhttps://s/1_2.html\nimg1\nimg2\nhttps://s/1_3.html\nimg3");
    assert_eq!(l.inner.len(), 2);
    assert_eq!(l.inner[0].0, "https://s/1_2.html");
    assert_eq!(l.inner[0].1, vec!["img1", "img2"]);
    assert_eq!(l.inner[1].1, vec!["img3"]);
    assert!(ImgList::from("").inner.is_empty());
}

#[test]
fn image_list_text_reads_back() {
    let mut l = ImgList::new();
    l.push_img("https://s/9_1.html", "https://i/1.jpg");
    l.push_img("https://s/9_1.html", "https://i/2.jpg");
    l.push_img("https://s/9_2.html", "https://i/3.jpg");
    let back = ImgList::from(l.to_string().as_str());
    assert_eq!(back.inner, l.inner);
    assert_eq!(ImgList::from(ImgList::new().to_string().as_str()).inner.len(), 0);
}

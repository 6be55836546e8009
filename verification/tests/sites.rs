use novel::args::Args;
use novel::bili::{page_images, Bili, BookCache, ContentPager, MenuEntry, MenuLineStep, RealUrlStep};
use novel::text::join_strings;
use novel::wenku8::Wenku8;

fn args_with(url: &str, title: usize) -> Args {
    let mut a = Args::default();
    a.url = url.to_string();
    a.title = title;
    a
}

#[test]
fn wenku8_book_ids_and_addresses() {
    assert!(Wenku8::support("https://www.wenku8.net/book/2345.htm"));
    assert!(!Wenku8::support("https://www.bilinovel.com/novel/1.html"));
    let w = Wenku8::new(args_with("https://www.wenku8.net/book/2345.htm", 1));
    assert_eq!(w.get_book_id(), "2345");
    assert_eq!(w.get_url(), "https://www.wenku8.net/book/2345.htm");
    let w = Wenku8::new(args_with("https://www.wenku8.net/novel/2/2345/index.htm", 1));
    assert_eq!(w.get_book_id(), "2345");
    let w = Wenku8::new(args_with("2345", 1));
    assert_eq!(w.get_book_id(), "2345");
    assert_eq!(w.get_url(), "https://www.wenku8.net/book/2345.htm");
}

#[test]
fn wenku8_title_selection() {
    let w1 = Wenku8::new(args_with("", 1));
    let w2 = Wenku8::new(args_with("", 2));
    let w0 = Wenku8::new(args_with("", 0));
    assert_eq!(w1.select_title("书名(副标题)"), Some("书名".to_string()));
    assert_eq!(w2.select_title("书名(副标题)"), Some("副标题".to_string()));
    assert_eq!(w0.select_title("书名(副标题)"), Some("书名(副标题)".to_string()));
    assert_eq!(w1.select_title("(只有括号)"), Some("(只有括号)".to_string()));
    assert_eq!(w1.select_title("A(B)C"), Some("A(B)C".to_string()));
    assert_eq!(w1.select_title("  (x)"), None);
    assert_eq!(w0.select_title(" "), None);
}

#[test]
fn wenku8_menu() {
    let w = Wenku8::new(args_with("1", 1));
    let m = w.get_menu_from_str("第一卷\nhttps://w/1.htm|第一章|续");
    assert_eq!(
        m,
        vec![
            (None, "第一卷".to_string()),
            (Some("https://w/1.htm".to_string()), "第一章|续".to_string())
        ]
    );
    assert_eq!(w.get_menu_from_str(""), vec![(None, String::new())]);
}

#[test]
fn wenku8_chapter_text() {
    let w = Wenku8::new(args_with("1", 1));
    let html = "&nbsp;&nbsp;&nbsp;&nbsp;第一段<br>\n<br>&nbsp;&nbsp;&nbsp;&nbsp;第二段<br>\n<br>\n<a href=\"x\"></a>  ";
    assert_eq!(
        w.convert_html(html),
        "<p>第一段</p><p>第二段</p>\n<a href=\"x\"/></a></p>"
    );
    assert_eq!(w.convert_html("  plain  "), "plain");
}

#[test]
fn wenku8_description_spans() {
    let texts: Vec<String> = vec!["作品Tags：恋爱 校园", "内容简介：", "简介正文", "其他", "作品Tags：奇幻"]
        .into_iter()
        .map(|s| s.to_string())
        .collect();
    let r = Wenku8::scan_description(&texts);
    assert_eq!(r.subject, Some("恋爱,校园,奇幻".to_string()));
    assert_eq!(r.description, Some("简介正文".to_string()));
    let r = Wenku8::scan_description(&Vec::new());
    assert_eq!(r.subject, None);
    assert_eq!(r.description, None);
    assert_eq!(Wenku8::publisher_of("文库分类：电击文库"), "电击文库");
    assert_eq!(Wenku8::creator_of("小说作者：某人"), "某人");
}

#[test]
fn bili_book_ids_and_addresses() {
    assert!(Bili::support("https://www.bilinovel.com/novel/3095.html"));
    assert!(Bili::support("https://www.linovelib.com/novel/3095.html"));
    assert!(!Bili::support("https://www.wenku8.net/book/1.htm"));
    let b = Bili::new(args_with("https://www.linovelib.com/novel/3095.html", 1));
    assert_eq!(b.get_book_id(), "3095");
    assert_eq!(b.get_url(), "https://www.bilinovel.com/novel/3095.html");
    let b = Bili::new(args_with("https://www.bilinovel.com/novel/3095.html", 1));
    assert_eq!(b.get_book_id(), "3095");
    assert_eq!(b.get_host(), "https://www.bilinovel.com");
}

#[test]
fn bili_real_url_steps() {
    let b = Bili::new(args_with("1", 1));
    match b.real_url_step("/novel/1/2_2.html") {
        RealUrlStep::Follow(u) => assert_eq!(u, "https://www.bilinovel.com/novel/1/2_2.html"),
        RealUrlStep::Found(_) => panic!("expected a further page"),
    }
    match b.real_url_step("https://www.bilinovel.com/novel/1/3.html") {
        RealUrlStep::Found(u) => assert_eq!(u, "https://www.bilinovel.com/novel/1/3.html"),
        RealUrlStep::Follow(_) => panic!("expected the address"),
    }
}

fn me(title: &str, url: Option<&str>) -> MenuEntry {
    MenuEntry { title: title.to_string(), url: url.map(|u| u.to_string()) }
}

#[test]
fn bili_hidden_chapter_lookup() {
    let e = vec![
        me("v", None),
        me("c1", Some("javascript:cid(0)")),
        me("c2", Some("/novel/1/2.html")),
    ];
    assert_eq!(Bili::chapter_lookup_url(&e, 1), Some("/novel/1/2.html".to_string()));
    assert_eq!(Bili::chapter_lookup_url(&e, 0), Some("/novel/1/2.html".to_string()));
    let hidden = vec![me("v", None), me("c1", Some("javascript:cid(0)"))];
    assert_eq!(Bili::chapter_lookup_url(&hidden, 0), Some(String::new()));
    assert_eq!(Bili::chapter_lookup_url(&hidden, 1), None);
}

#[test]
fn bili_menu_lines_read_back() {
    let b = Bili::new(args_with("1", 1));
    assert_eq!(
        b.menu_line("第一章", "/novel/1/1.html"),
        "第一章|https://www.bilinovel.com/novel/1/1.html"
    );
    let lines: Vec<String> = vec![
        "卷一".to_string(),
        b.menu_line("第一章", "/novel/1/1.html"),
        b.menu_line("第二章", "https://x/2.html"),
    ];
    let text = join_strings(&lines, "\n");
    assert_eq!(
        b.get_menu_from_str(&text),
        vec![
            (None, "卷一".to_string()),
            (Some("https://www.bilinovel.com/novel/1/1.html".to_string()), "第一章".to_string()),
            (Some("https://x/2.html".to_string()), "第二章".to_string())
        ]
    );
    assert!(b.get_menu_from_str("").is_empty());
}

#[test]
fn bili_chapter_text() {
    let b = Bili::new(args_with("1", 1));
    let html = "<p data-k1234567=\"\">x</p><img src=\"a\" class=\"imagecontent lazyload\"><br><p data-k12345=\"\"><p data-k12345678901=\"\"><img class=\"imagecontent\">";
    assert_eq!(
        b.convert_html(html),
        "<p>x</p><img src=\"a\"/><br/><p data-k12345=\"\"><p data-k12345678901=\"\"><img/>"
    );
    assert_eq!(
        b.convert_html("<p data-k0123456789=\"\">a<p data-k999999=\"\">"),
        "<p>a<p>"
    );
}

#[test]
fn bili_book_cache() {
    let c = BookCache {
        title: "书".to_string(),
        author: "作者".to_string(),
        description: "简介".to_string(),
        tags: "a,b".to_string(),
        menu_url: "https://www.bilinovel.com/novel/1/catalog".to_string(),
    };
    let t = c.to_text();
    assert_eq!(t, "书|||作者|||简介|||a,b|||https://www.bilinovel.com/novel/1/catalog");
    let back = BookCache::parse(&t).unwrap();
    assert_eq!(back.title, "书");
    assert_eq!(back.author, "作者");
    assert_eq!(back.description, "简介");
    assert_eq!(back.tags, "a,b");
    assert_eq!(back.menu_url, c.menu_url);
    assert!(BookCache::parse("a|||b").is_none());
}

#[test]
fn bili_pages_of_a_chapter() {
    let mut p = ContentPager::new();
    assert_eq!(p.page_img_prefix("3-"), "3-0-");
    let next = p.add_page("u1", " img1\nimg2 ", "<p>1</p>", "https://x/1_2.html");
    assert_eq!(next, Some("https://x/1_2.html".to_string()));
    assert_eq!(p.page_img_prefix("3-"), "3-1-");
    let next = p.add_page("u2", "  ", "<p>2</p>", "https://x/2.html");
    assert_eq!(next, None);
    let (html, imgs) = p.finish();
    assert_eq!(html, "<p>1</p><p>2</p>");
    assert_eq!(imgs, "u1\nimg1\nimg2");
}

#[test]
fn bili_images_by_page() {
    let pages = page_images("9", "https://s/1_1.html\na.jpg\nb.jpg\nhttps://s/1_2.html\nc.jpg", "3-");
    assert_eq!(pages.len(), 2);
    assert_eq!(pages[0].0, "https://s/1_1.html");
    let names: Vec<&str> = pages[0].1.iter().map(|i| i.filename()).collect();
    assert_eq!(names, vec!["3-0-0.jpg", "3-0-1.jpg"]);
    assert_eq!(pages[1].1[0].filename(), "3-1-0.jpg");
    assert_eq!(pages[1].1[0].cache_path(), "temp/9/Images/3-1-0.jpg");
}

#[test]
fn bili_menu_line_steps() {
    let b = Bili::new(args_with("1", 1));
    let e = vec![
        me("卷一", None),
        me("c1", Some("javascript:cid(0)")),
        me("c2", Some("/novel/1/2.html")),
        me("c3", Some("javascript:cid(1)")),
    ];
    assert!(matches!(b.menu_line_step(&e, 0), MenuLineStep::Line(l) if l == "卷一"));
    assert!(matches!(b.menu_line_step(&e, 1),
        MenuLineStep::Resolve(s) if s == "https://www.bilinovel.com/novel/1/2.html"));
    assert!(matches!(b.menu_line_step(&e, 2),
        MenuLineStep::Line(l) if l == "c2|https://www.bilinovel.com/novel/1/2.html"));
    assert!(matches!(b.menu_line_step(&e, 3), MenuLineStep::NoStart));
}

#[test]
fn bili_book_cache_keeps_single_bars() {
    let c = BookCache {
        title: "A|B".to_string(),
        author: "|x".to_string(),
        description: "a||b".to_string(),
        tags: "t".to_string(),
        menu_url: "u|".to_string(),
    };
    let back = BookCache::parse(&c.to_text()).unwrap();
    assert_eq!(back.title, "A|B");
    assert_eq!(back.author, "|x");
    assert_eq!(back.description, "a||b");
    assert_eq!(back.tags, "t");
    assert_eq!(back.menu_url, "u|");
}

#[test]
fn bili_book_cache_breaks_on_a_bar_before_the_separator() {
    let c = BookCache {
        title: "a|".to_string(),
        author: "b".to_string(),
        description: "c".to_string(),
        tags: "d".to_string(),
        menu_url: "e".to_string(),
    };
    let back = BookCache::parse(&c.to_text()).unwrap();
    assert_eq!(back.title, "a");
    assert_eq!(back.author, "|b");
}

#[test]
fn bili_title_selection() {
    let b1 = Bili::new(args_with("https://www.bilinovel.com/novel/1.html", 1));
    let b2 = Bili::new(args_with("https://www.bilinovel.com/novel/1.html", 2));
    let b0 = Bili::new(args_with("https://www.bilinovel.com/novel/1.html", 0));
    assert_eq!(b1.select_title("书名(副标题)"), "书名");
    assert_eq!(b2.select_title("书名(副标题)"), "副标题");
    assert_eq!(b0.select_title("书名(副标题)"), "书名(副标题)");
    assert_eq!(b1.select_title("(只有括号)"), "(只有括号)");
}

//! The wenku8 site: book ids, addresses, titles, menus and chapter text.
use crate::args;
use crate::args::Args;
use crate::book::MenuItem;
use crate::text;
use crate::text::{
    chars_of, contains_str, find_char, is_blank_str, join_strings, replace_str, slice_chars,
    split_on, starts_with_str, string_of, trim_str,
};
use vstd::prelude::*;
use vstd::string::*;

verus! {

/// The prefix of a book page address.
pub open spec fn book_prefix() -> Seq<char> {
    "https://www.wenku8.net/book/"@
}

/// The prefix of a book menu address.
pub open spec fn novel_prefix() -> Seq<char> {
    "https://www.wenku8.net/novel/2/"@
}

/// The id of the book that `url` points to.
pub open spec fn book_id_spec(url: Seq<char>) -> Seq<char> {
    if text::starts_with(url, book_prefix()) {
        text::replace(text::replace(url, book_prefix(), ""@), ".htm"@, ""@)
    } else if text::starts_with(url, novel_prefix()) {
        text::replace(text::replace(url, novel_prefix(), ""@), "/index.htm"@, ""@)
    } else {
        url
    }
}

/// One menu line: `url|title` for a chapter, the bare title for a volume.
pub open spec fn menu_item(line: Seq<char>) -> MenuItem {
    match line.index_of_first('|') {
        Some(s) => (Some(line.take(s)), line.skip(s + 1)),
        None => (None, line),
    }
}

/// The menu that a newline-separated menu text describes.
pub open spec fn menu_spec(menu_str: Seq<char>) -> Seq<MenuItem> {
    text::split(menu_str, '\n').map_values(|l: Seq<char>| menu_item(l))
}

/// A chapter's page text made into book text: indentation starts a
/// paragraph, a doubled line break ends one, and links are closed.
pub open spec fn convert_html_spec(html: Seq<char>) -> Seq<char> {
    let v = text::replace(
        text::replace(
            text::replace(html, "&nbsp;&nbsp;&nbsp;&nbsp;"@, "<p>"@),
            "<br>\n<br>"@,
            "</p>"@,
        ),
        "></a>"@,
        "/></a>"@,
    );
    if text::contains(v, "<p>"@) {
        text::trim(v) + "</p>"@
    } else {
        text::trim(v)
    }
}

/// The label of the tags in a book's description.
pub open spec fn tags_label() -> Seq<char> {
    "作品Tags："@
}

/// The label of the summary in a book's description.
pub open spec fn summary_label() -> Seq<char> {
    "内容简介："@
}

/// What the description spans of a book page yield so far.
pub struct SpanScan {
    pub tags: Seq<Seq<char>>,
    pub has_desc: bool,
    pub subject: Option<Seq<char>>,
    pub description: Option<Seq<char>>,
}

/// One span read: a tags span adds its space-separated tags and sets the
/// subject to all tags so far; a summary label makes the next span the
/// description.
pub open spec fn scan_step(st: SpanScan, t: Seq<char>) -> SpanScan {
    if text::contains(t, tags_label()) {
        let tags = st.tags + text::split(text::replace(t, tags_label(), ""@), ' ');
        SpanScan { tags, has_desc: st.has_desc, subject: Some(text::join(tags, ","@)), description: st.description }
    } else if text::contains(t, summary_label()) {
        SpanScan { has_desc: true, ..st }
    } else if st.has_desc {
        SpanScan { has_desc: false, description: Some(t), ..st }
    } else {
        st
    }
}

/// The scan of spans, in order.
pub open spec fn scan_spans(texts: Seq<Seq<char>>) -> SpanScan
    decreases texts.len(),
{
    if texts.len() == 0 {
        SpanScan { tags: seq![], has_desc: false, subject: None, description: None }
    } else {
        scan_step(scan_spans(texts.drop_last()), texts.last())
    }
}

/// The subject and description found in a book's description spans.
pub struct BookText {
    pub subject: Option<String>,
    pub description: Option<String>,
}

/// The wenku8 site, for the book the options name.
pub struct Wenku8 {
    pub arg: Args,
}

impl Wenku8 {
    /// Whether the address belongs to this site.
    pub fn support(url: &str) -> (b: bool)
        ensures
            b == text::contains(url@, "wenku8"@),
    {
        contains_str(url, "wenku8")
    }

    /// The site for the book that `arg` names.
    pub fn new(arg: Args) -> (w: Wenku8)
        ensures
            w.arg@ == arg@,
    {
        Wenku8 { arg }
    }

    /// The id of the book: the address without the site prefix and page
    /// suffix, or the address itself when it is neither form.
    pub fn get_book_id(&self) -> (id: String)
        ensures
            id@ == book_id_spec(self.arg.url@),
    {
        proof {
            reveal_strlit(".htm");
            reveal_strlit("/index.htm");
            reveal_strlit("https://www.wenku8.net/book/");
            reveal_strlit("https://www.wenku8.net/novel/2/");
        }
        let url = self.arg.url.as_str();
        if starts_with_str(url, "https://www.wenku8.net/book/") {
            let a = replace_str(url, "https://www.wenku8.net/book/", "");
            replace_str(a.as_str(), ".htm", "")
        } else if starts_with_str(url, "https://www.wenku8.net/novel/2/") {
            let a = replace_str(url, "https://www.wenku8.net/novel/2/", "");
            replace_str(a.as_str(), "/index.htm", "")
        } else {
            self.arg.url.clone()
        }
    }

    /// The book's page: `https://www.wenku8.net/book/{id}.htm`.
    pub fn get_url(&self) -> (url: String)
        ensures
            url@ == book_prefix() + book_id_spec(self.arg.url@) + ".htm"@,
    {
        let mut url = String::from_str("https://www.wenku8.net/book/");
        url.append(self.get_book_id().as_str());
        url.append(".htm");
        url
    }

    /// The title to use, selected from the page's title as the options say;
    /// `None` when it is blank.
    pub fn select_title(&self, title: &str) -> (r: Option<String>)
        ensures
            r matches Some(t) ==> t@ == args::select_title_spec(self.arg.title, title@),
            r is None <==> text::is_blank(args::select_title_spec(self.arg.title, title@)),
    {
        let s = self.arg.title_part(title);
        if is_blank_str(s.as_str()) {
            None
        } else {
            Some(s)
        }
    }

    /// The menu that `menu_str` describes: one entry per line, `url|title`
    /// for a chapter and the bare title for a volume.
    pub fn get_menu_from_str(&self, menu_str: &str) -> (menu: Vec<(Option<String>, String)>)
        ensures
            menu.deep_view() == menu_spec(menu_str@),
    {
        let lines = split_on(menu_str, '\n');
        let ghost lv = lines.deep_view();
        let mut menu: Vec<(Option<String>, String)> = Vec::new();
        let mut i: usize = 0;
        while i < lines.len()
            invariant
                lv == lines.deep_view(),
                i <= lines.len(),
                menu.deep_view() == lv.take(i as int).map_values(|l: Seq<char>| menu_item(l)),
            decreases lines.len() - i,
        {
            let v = chars_of(lines[i].as_str());
            assert(v@ == lv[i as int]);
            let ghost before = menu.deep_view();
            proof {
                v@.index_of_first_ensures('|');
            }
            match find_char(&v, '|') {
                Some(s) => {
                    let url = string_of(&slice_chars(&v, 0, s));
                    let title = string_of(&slice_chars(&v, s + 1, v.len()));
                    assert(v@.subrange(0, s as int) == v@.take(s as int));
                    assert(v@.subrange(s + 1, v@.len() as int) == v@.skip(s + 1));
                    menu.push((Some(url), title));
                },
                None => {
                    menu.push((None, lines[i].clone()));
                },
            }
            assert(menu.deep_view() == before.push(menu_item(lv[i as int])));
            assert(lv.take(i + 1) == lv.take(i as int).push(lv[i as int]));
            i = i + 1;
        }
        assert(lv.take(lines.len() as int) == lv);
        menu
    }

    /// The chapter text made into book text.
    pub fn convert_html(&self, html: &str) -> (r: String)
        ensures
            r@ == convert_html_spec(html@),
    {
        proof {
            reveal_strlit("&nbsp;&nbsp;&nbsp;&nbsp;");
            reveal_strlit("<br>\n<br>");
            reveal_strlit("></a>");
        }
        let a = replace_str(html, "&nbsp;&nbsp;&nbsp;&nbsp;", "<p>");
        let b = replace_str(a.as_str(), "<br>\n<br>", "</p>");
        let v = replace_str(b.as_str(), "></a>", "/></a>");
        if contains_str(v.as_str(), "<p>") {
            let mut r = trim_str(v.as_str());
            r.append("</p>");
            r
        } else {
            trim_str(v.as_str())
        }
    }

    /// The subject (all tags, comma-separated) and description found in the
    /// description spans of a book page.
    pub fn scan_description(texts: &Vec<String>) -> (r: BookText)
        ensures
            r.subject matches Some(s) ==> scan_spans(texts.deep_view()).subject == Some(s@),
            r.subject is None <==> scan_spans(texts.deep_view()).subject is None,
            r.description matches Some(d) ==> scan_spans(texts.deep_view()).description == Some(
                d@,
            ),
            r.description is None <==> scan_spans(texts.deep_view()).description is None,
    {
        proof {
            reveal_strlit("作品Tags：");
        }
        let ghost tv = texts.deep_view();
        let mut tags: Vec<String> = Vec::new();
        let mut has_desc = false;
        let mut subject: Option<String> = None;
        let mut description: Option<String> = None;
        let mut i: usize = 0;
        while i < texts.len()
            invariant
                tv == texts.deep_view(),
                i <= texts.len(),
                ({
                    let st = scan_spans(tv.take(i as int));
                    &&& st.tags == tags.deep_view()
                    &&& st.has_desc == has_desc
                    &&& (subject matches Some(s) ==> st.subject == Some(s@))
                    &&& (subject is None <==> st.subject is None)
                    &&& (description matches Some(d) ==> st.description == Some(d@))
                    &&& (description is None <==> st.description is None)
                }),
            decreases texts.len() - i,
        {
            let t = texts[i].as_str();
            assert(tv[i as int] == t@);
            assert(tv.take(i + 1).drop_last() == tv.take(i as int));
            assert(tv.take(i + 1).last() == t@);
            if contains_str(t, "作品Tags：") {
                proof {
                    reveal_strlit("作品Tags：");
                }
                let rest = replace_str(t, "作品Tags：", "");
                let more = split_on(rest.as_str(), ' ');
                let ghost before = tags.deep_view();
                let mut k: usize = 0;
                while k < more.len()
                    invariant
                        k <= more.len(),
                        tags.deep_view() == before + more.deep_view().take(k as int),
                    decreases more.len() - k,
                {
                    let ghost tb = tags.deep_view();
                    tags.push(more[k].clone());
                    assert(tags.deep_view() =~= tb.push(more[k as int]@));
                    assert(more.deep_view().take(k + 1) == more.deep_view().take(k as int).push(
                        more[k as int]@,
                    ));
                    k = k + 1;
                }
                assert(more.deep_view().take(more.len() as int) == more.deep_view());
                subject = Some(join_strings(&tags, ","));
            } else if contains_str(t, "内容简介：") {
                has_desc = true;
            } else if has_desc {
                has_desc = false;
                description = Some(texts[i].clone());
            }
            i = i + 1;
        }
        assert(tv.take(texts.len() as int) == tv);
        BookText { subject, description }
    }

    /// The publisher named in the catalogue cell: the text without its label.
    pub fn publisher_of(text: &str) -> (r: String)
        ensures
            r@ == text::replace(text@, "文库分类："@, ""@),
    {
        proof {
            reveal_strlit("文库分类：");
        }
        replace_str(text, "文库分类：", "")
    }

    /// The author named in the author cell: the text without its label.
    pub fn creator_of(text: &str) -> (r: String)
        ensures
            r@ == text::replace(text@, "小说作者："@, ""@),
    {
        proof {
            reveal_strlit("小说作者：");
        }
        replace_str(text, "小说作者：", "")
    }
}

} // verus!

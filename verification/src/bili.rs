//! The bilinovel site: book ids, addresses, menus, page-by-page chapter
//! text, cached book details and chapter text clean-up.
use crate::args;
use crate::args::Args;
use crate::book::MenuItem;
use crate::img::{get_img_src, ImgList, ImgSrc};
use crate::text;
use crate::text::{
    chars_of, contains_str, find_char, is_blank_str, join_strings, replace_str, slice_chars,
    split_on, split_str, starts_with_str, string_of, trim_str, usize_to_decimal,
};
use regex::Regex;
use vstd::prelude::*;
use vstd::string::*;

verus! {

/// The paragraph tag with a `data-k` marker of 6 to 10 digits that starts
/// `s`, if any, given by its digit count: `<p data-k{digits}="">`.
pub open spec fn data_k_at(s: Seq<char>, n: nat) -> bool {
    &&& 6 <= n <= 10
    &&& 13 + n <= s.len()
    &&& s.take(9) == "<p data-k"@
    &&& forall|j: int| 9 <= j < 9 + n ==> text::is_digit(#[trigger] s[j])
    &&& s.subrange(9 + n as int, 13 + n as int) == "=\"\">"@
}

/// `s` with every marked paragraph tag, found from the left, written `<p>`
/// (what replacing the matches of `<p data-k[0-9]{6,10}="">` gives).
pub open spec fn strip_data_k(s: Seq<char>) -> Seq<char>
    decreases s.len(),
{
    if s.len() == 0 {
        s
    } else if exists|n: nat| data_k_at(s, n) {
        let n = choose|n: nat| data_k_at(s, n);
        "<p>"@ + strip_data_k(s.skip(13 + n as int))
    } else {
        seq![s[0]] + strip_data_k(s.drop_first())
    }
}

/// Trusted: regex's `Regex::new("<p data-k[0-9]{6,10}=\"\">")`, which cannot
/// fail on this pattern, and `Regex::replace_all` with the replacement `<p>`.
/// Claims that the result is `strip_data_k`: leftmost, non-overlapping
/// matches of the pattern, each written `<p>`.
#[verifier::external_body]
fn replace_data_k(html: &str) -> (r: String)
    ensures
        r@ == strip_data_k(html@),
{
    let re = Regex::new("<p data-k[0-9]{6,10}=\"\">").unwrap();
    re.replace_all(html, "<p>").to_string()
}

/// The site's address.
pub open spec fn host() -> Seq<char> {
    "https://www.bilinovel.com"@
}

/// An address made absolute: one that does not start with `http` is taken
/// relative to the site.
pub open spec fn absolute_spec(url: Seq<char>) -> Seq<char> {
    if text::starts_with(url, "http"@) {
        url
    } else {
        host() + url
    }
}

/// The id of the book that `url` points to.
pub open spec fn book_id_spec(url: Seq<char>) -> Seq<char> {
    if text::contains(url, ".linovelib.com"@) {
        text::replace(text::replace(url, "https://www.linovelib.com/novel/"@, ""@), ".html"@, ""@)
    } else {
        text::replace(text::replace(url, "https://www.bilinovel.com/novel/"@, ""@), ".html"@, ""@)
    }
}

/// One menu line: `title|url` for a chapter, with the address made
/// absolute; the bare title for a volume.
pub open spec fn menu_item(line: Seq<char>) -> MenuItem {
    match line.index_of_first('|') {
        Some(i) => (Some(absolute_spec(line.skip(i + 1))), line.take(i)),
        None => (None, line),
    }
}

/// The menu that a newline-separated menu text describes; an empty text has
/// no entries.
pub open spec fn menu_spec(menu_str: Seq<char>) -> Seq<MenuItem> {
    if menu_str.len() == 0 {
        seq![]
    } else {
        text::split(menu_str, '\n').map_values(|l: Seq<char>| menu_item(l))
    }
}

/// An entry of the site's chapter list: a title, and an address for a
/// chapter (none for a volume heading).
pub struct MenuEntry {
    pub title: String,
    pub url: Option<String>,
}

/// An entry of the chapter list as sequences.
pub type EntryView = (Seq<char>, Option<Seq<char>>);

impl View for MenuEntry {
    type V = EntryView;

    open spec fn view(&self) -> EntryView {
        (
            self.title@,
            match &self.url {
                Some(u) => Some(u@),
                None => None,
            },
        )
    }
}

/// An entry whose address is usable for finding a hidden chapter's
/// neighbour: it has one, and it is no script link.
pub open spec fn usable(e: EntryView) -> bool {
    e.1 matches Some(u) && !text::contains(u, "java"@)
}

/// The address of the first usable entry at or after `j`.
pub open spec fn first_usable_from(entries: Seq<EntryView>, j: int) -> Option<Seq<char>>
    decreases entries.len() - j,
{
    if j < 0 || j >= entries.len() {
        None
    } else if usable(entries[j]) {
        entries[j].1
    } else {
        first_usable_from(entries, j + 1)
    }
}

/// Where to start looking for the address of the hidden chapter `index`:
/// the first usable address from `index` on; the empty address when there is
/// none and `index` is 0; no answer when there is none otherwise.
pub open spec fn lookup_spec(entries: Seq<EntryView>, index: int) -> Option<Seq<char>> {
    match first_usable_from(entries, index) {
        Some(u) => Some(u),
        None => if index == 0 {
            Some(seq![])
        } else {
            None
        },
    }
}

/// The views of a list of entries.
pub open spec fn entry_views(v: Seq<MenuEntry>) -> Seq<EntryView> {
    v.map_values(|e: MenuEntry| e@)
}

/// What to do with the neighbour address `s` read on a chapter page while
/// looking for a hidden chapter's address.
pub enum RealUrlStep {
    /// Open this page next.
    Follow(String),
    /// This is the address.
    Found(String),
}

/// How the menu line of an entry is made.
pub enum MenuLineStep {
    /// The line is ready.
    Line(String),
    /// The chapter's address is hidden: read it starting from this page, then
    /// make the line with `menu_line`.
    Resolve(String),
    /// The address is hidden and no entry gives a page to start from.
    NoStart,
}

/// Details of a book kept between runs.
pub struct BookCache {
    pub title: String,
    pub author: String,
    pub description: String,
    pub tags: String,
    pub menu_url: String,
}

/// The text of chapter pages read so far, and the images found on them.
pub struct ContentPager {
    pub html: String,
    pub img_list: ImgList,
}

/// The bilinovel site, for the book the options name.
pub struct Bili {
    pub arg: Args,
}

impl Bili {
    /// Whether the address belongs to this site.
    pub fn support(url: &str) -> (b: bool)
        ensures
            b == (text::contains(url@, "bilinovel"@) || text::contains(url@, ".linovelib.com"@)),
    {
        contains_str(url, "bilinovel") || contains_str(url, ".linovelib.com")
    }

    /// The site for the book that `arg` names.
    pub fn new(arg: Args) -> (b: Bili)
        ensures
            b.arg@ == arg@,
    {
        Bili { arg }
    }

    /// The site's address.
    pub fn get_host(&self) -> (h: String)
        ensures
            h@ == host(),
    {
        String::from_str("https://www.bilinovel.com")
    }

    /// `url` made absolute.
    pub fn absolute(&self, url: &str) -> (r: String)
        ensures
            r@ == absolute_spec(url@),
    {
        if starts_with_str(url, "http") {
            String::from_str(url)
        } else {
            let mut r = self.get_host();
            r.append(url);
            r
        }
    }

    /// The id of the book: the address without the site prefix and `.html`.
    pub fn get_book_id(&self) -> (id: String)
        ensures
            id@ == book_id_spec(self.arg.url@),
    {
        proof {
            reveal_strlit(".html");
            reveal_strlit("https://www.linovelib.com/novel/");
            reveal_strlit("https://www.bilinovel.com/novel/");
        }
        let url = self.arg.url.as_str();
        if contains_str(url, ".linovelib.com") {
            let a = replace_str(url, "https://www.linovelib.com/novel/", "");
            replace_str(a.as_str(), ".html", "")
        } else {
            let a = replace_str(url, "https://www.bilinovel.com/novel/", "");
            replace_str(a.as_str(), ".html", "")
        }
    }

    /// The title to use, selected from the page's title as the options say.
    pub fn select_title(&self, title: &str) -> (r: String)
        ensures
            r@ == args::select_title_spec(self.arg.title, title@),
    {
        self.arg.title_part(title)
    }

    /// The book's page: `https://www.bilinovel.com/novel/{id}.html`.
    pub fn get_url(&self) -> (url: String)
        ensures
            url@ == "https://www.bilinovel.com/novel/"@ + book_id_spec(self.arg.url@) + ".html"@,
    {
        let mut url = String::from_str("https://www.bilinovel.com/novel/");
        url.append(self.get_book_id().as_str());
        url.append(".html");
        url
    }

    /// The next step after reading the neighbour address `s`: an address
    /// with `_` is a further page of the same chapter, to be followed from
    /// the site's address; any other is the one sought.
    pub fn real_url_step(&self, s: &str) -> (r: RealUrlStep)
        ensures
            r matches RealUrlStep::Follow(u) ==> text::contains(s@, "_"@) && u@ == host() + s@,
            r matches RealUrlStep::Found(u) ==> !text::contains(s@, "_"@) && u@ == s@,
    {
        if contains_str(s, "_") {
            let mut u = self.get_host();
            u.append(s);
            RealUrlStep::Follow(u)
        } else {
            RealUrlStep::Found(String::from_str(s))
        }
    }

    /// Where to start looking for the address of the hidden chapter `index`;
    /// `None` when no entry from `index` on has a usable address and `index`
    /// is not 0.
    pub fn chapter_lookup_url(entries: &Vec<MenuEntry>, index: usize) -> (r: Option<String>)
        requires
            index < entries.len(),
        ensures
            r matches Some(u) ==> lookup_spec(entry_views(entries@), index as int) == Some(u@),
            r is None ==> lookup_spec(entry_views(entries@), index as int) is None,
    {
        let ghost ev = entry_views(entries@);
        let mut j: usize = index;
        while j < entries.len()
            invariant
                ev == entry_views(entries@),
                index <= j <= entries.len(),
                first_usable_from(ev, index as int) == first_usable_from(ev, j as int),
            decreases entries.len() - j,
        {
            assert(ev[j as int] == entries[j as int]@);
            match &entries[j].url {
                Some(u) => {
                    if !contains_str(u.as_str(), "java") {
                        return Some(u.clone());
                    }
                },
                None => {},
            }
            j = j + 1;
        }
        if index == 0 {
            Some(String::new())
        } else {
            None
        }
    }

    /// The menu line of a chapter: `{title}|{url made absolute}`.
    pub fn menu_line(&self, title: &str, url: &str) -> (r: String)
        ensures
            r@ == title@ + "|"@ + absolute_spec(url@),
    {
        let mut r = String::from_str(title);
        r.append("|");
        r.append(self.absolute(url).as_str());
        r
    }

    /// The menu line of entry `index`: the bare title for a volume, the
    /// chapter line for a chapter with a plain address; a chapter whose
    /// address is a script link has to be resolved, starting from the page
    /// `chapter_lookup_url` gives, made absolute.
    pub fn menu_line_step(&self, entries: &Vec<MenuEntry>, index: usize) -> (r: MenuLineStep)
        requires
            index < entries.len(),
        ensures
            ({
                let e = entry_views(entries@)[index as int];
                match e.1 {
                    None => r matches MenuLineStep::Line(l) && l@ == e.0,
                    Some(u) => if !text::contains(u, "javascript"@) {
                        r matches MenuLineStep::Line(l) && l@ == menu_text_line(e)
                    } else {
                        match lookup_spec(entry_views(entries@), index as int) {
                            Some(start) => r matches MenuLineStep::Resolve(s) && s@
                                == absolute_spec(start),
                            None => r is NoStart,
                        }
                    },
                }
            }),
    {
        let e = &entries[index];
        assert(entry_views(entries@)[index as int] == e@);
        match &e.url {
            None => MenuLineStep::Line(e.title.clone()),
            Some(u) => {
                if !contains_str(u.as_str(), "javascript") {
                    MenuLineStep::Line(self.menu_line(e.title.as_str(), u.as_str()))
                } else {
                    match Bili::chapter_lookup_url(entries, index) {
                        Some(start) => MenuLineStep::Resolve(self.absolute(start.as_str())),
                        None => MenuLineStep::NoStart,
                    }
                }
            },
        }
    }

    /// The menu that `menu_str` describes: one entry per line, `title|url`
    /// for a chapter and the bare title for a volume.
    pub fn get_menu_from_str(&self, menu_str: &str) -> (menu: Vec<(Option<String>, String)>)
        ensures
            menu.deep_view() == menu_spec(menu_str@),
    {
        let mut menu: Vec<(Option<String>, String)> = Vec::new();
        if chars_of(menu_str).len() == 0 {
            assert(menu.deep_view() == Seq::<MenuItem>::empty());
            return menu;
        }
        let lines = split_on(menu_str, '\n');
        let ghost lv = lines.deep_view();
        let mut i: usize = 0;
        while i < lines.len()
            invariant
                lv == lines.deep_view(),
                i <= lines.len(),
                menu.deep_view() == lv.take(i as int).map_values(|l: Seq<char>| menu_item(l)),
            decreases lines.len() - i,
        {
            let v = chars_of(lines[i].as_str());
            assert(v@ == lv[i as int]);
            let ghost before = menu.deep_view();
            proof {
                v@.index_of_first_ensures('|');
            }
            match find_char(&v, '|') {
                Some(k) => {
                    let title = string_of(&slice_chars(&v, 0, k));
                    let url = string_of(&slice_chars(&v, k + 1, v.len()));
                    assert(v@.subrange(0, k as int) == v@.take(k as int));
                    assert(v@.subrange(k + 1, v@.len() as int) == v@.skip(k + 1));
                    menu.push((Some(self.absolute(url.as_str())), title));
                },
                None => {
                    menu.push((None, lines[i].clone()));
                },
            }
            assert(menu.deep_view() == before.push(menu_item(lv[i as int])));
            assert(lv.take(i + 1) == lv.take(i as int).push(lv[i as int]));
            i = i + 1;
        }
        assert(lv.take(lines.len() as int) == lv);
        menu
    }

    /// The chapter text made into book text: marked paragraph tags become
    /// `<p>`, images and line breaks are closed.
    pub fn convert_html(&self, html: &str) -> (r: String)
        ensures
            r@ == text::replace(
                text::replace(
                    text::replace(
                        text::replace(
                            strip_data_k(html@),
                            " class=\"imagecontent lazyload\">"@,
                            "/>"@,
                        ),
                        " class=\"imagecontent lazyloaded\">"@,
                        "/>"@,
                    ),
                    "<br>"@,
                    "<br/>"@,
                ),
                " class=\"imagecontent\">"@,
                "/>"@,
            ),
    {
        proof {
            reveal_strlit(" class=\"imagecontent lazyload\">");
            reveal_strlit(" class=\"imagecontent lazyloaded\">");
            reveal_strlit("<br>");
            reveal_strlit(" class=\"imagecontent\">");
        }
        let a = replace_data_k(html);
        let b = replace_str(a.as_str(), " class=\"imagecontent lazyload\">", "/>");
        let c = replace_str(b.as_str(), " class=\"imagecontent lazyloaded\">", "/>");
        let d = replace_str(c.as_str(), "<br>", "<br/>");
        replace_str(d.as_str(), " class=\"imagecontent\">", "/>")
    }
}


/// The menu line written for an entry of the chapter list: `title|url` with
/// the address made absolute for a chapter, the bare title for a volume.
pub open spec fn menu_text_line(e: EntryView) -> Seq<char> {
    match e.1 {
        Some(u) => e.0 + "|"@ + absolute_spec(u),
        None => e.0,
    }
}

/// The menu entry that reading the line of `e` gives.
pub open spec fn menu_entry_of(e: EntryView) -> MenuItem {
    match e.1 {
        Some(u) => (Some(absolute_spec(u)), e.0),
        None => (None, e.0),
    }
}

proof fn lemma_absolute_idempotent(u: Seq<char>)
    ensures
        absolute_spec(absolute_spec(u)) == absolute_spec(u),
{
    reveal_strlit("http");
    reveal_strlit("https://www.bilinovel.com");
    if !text::starts_with(u, "http"@) {
        let a = host() + u;
        assert(a.subrange(0, 4) == "http"@);
    }
}

proof fn lemma_menu_line_read(e: EntryView)
    requires
        text::lacks(e.0, '|'),
    ensures
        menu_item(menu_text_line(e)) == menu_entry_of(e),
{
    let t = e.0;
    match e.1 {
        Some(u) => {
            reveal_strlit("|");
            let line = t + "|"@ + absolute_spec(u);
            line.index_of_first_ensures('|');
            assert(line[t.len() as int] == '|');
            let k = line.index_of_first('|').unwrap();
            if k < t.len() {
                assert(line[k] == t[k]);
            } else if k > t.len() {
            }
            assert(line.take(t.len() as int) == t);
            assert(line.skip(t.len() as int + 1) == absolute_spec(u));
            lemma_absolute_idempotent(u);
        },
        None => {
            t.index_of_first_ensures('|');
            if t.contains('|') {
                let k = choose|k: int| 0 <= k < t.len() && t[k] == '|';
                assert(t[k] != '|');
            }
        },
    }
}

proof fn lemma_menu_line_lacks_newline(e: EntryView)
    requires
        text::lacks(e.0, '\n'),
        e.1 matches Some(u) ==> text::lacks(u, '\n'),
    ensures
        text::lacks(menu_text_line(e), '\n'),
{
    reveal_strlit("|");
    reveal_strlit("https://www.bilinovel.com");
    match e.1 {
        Some(u) => {
            let line = menu_text_line(e);
            let a = absolute_spec(u);
            assert(text::lacks(a, '\n')) by {
                if !text::starts_with(u, "http"@) {
                    assert forall|i: int| 0 <= i < a.len() implies a[i] != '\n' by {
                        if i >= host().len() {
                            assert(a[i] == u[i - host().len()]);
                        }
                    }
                }
            }
            assert forall|i: int| 0 <= i < line.len() implies line[i] != '\n' by {
                if i < e.0.len() {
                    assert(line[i] == e.0[i]);
                } else if i > e.0.len() {
                    assert(line[i] == a[i - e.0.len() - 1]);
                }
            }
        },
        None => {},
    }
}

/// A chapter list written as menu lines and read back gives the same
/// entries, with absolute addresses, when no title holds `|` or a line
/// break and no address holds a line break. The one list this leaves out is
/// a single volume with an empty title: its text is empty, and an empty menu
/// text has no entries.
pub proof fn lemma_menu_roundtrip(entries: Seq<EntryView>)
    requires
        forall|k: int|
            0 <= k < entries.len() ==> {
                &&& text::lacks((#[trigger] entries[k]).0, '|')
                &&& text::lacks(entries[k].0, '\n')
                &&& (entries[k].1 matches Some(u) ==> text::lacks(u, '\n'))
            },
        !(entries.len() == 1 && entries[0].0.len() == 0 && entries[0].1 is None),
    ensures
        menu_spec(
            text::join(entries.map_values(|e: EntryView| menu_text_line(e)), "\n"@),
        ) == entries.map_values(|e: EntryView| menu_entry_of(e)),
{
    reveal_strlit("\n");
    reveal_strlit("|");
    let lines = entries.map_values(|e: EntryView| menu_text_line(e));
    let t = text::join(lines, "\n"@);
    if entries.len() == 0 {
        assert(t == Seq::<char>::empty());
        assert(entries.map_values(|e: EntryView| menu_entry_of(e)) == Seq::<MenuItem>::empty());
    } else {
        assert forall|k: int| 0 <= k < lines.len() implies text::lacks(
            #[trigger] lines[k],
            '\n',
        ) by {
            lemma_menu_line_lacks_newline(entries[k]);
        }
        assert("\n"@ == seq!['\n']);
        text::lemma_split_join(lines, '\n');
        assert(t.len() > 0) by {
            if entries.len() == 1 {
                assert(t == lines[0]);
                if entries[0].1 is Some {
                    assert(lines[0][entries[0].0.len() as int] == '|');
                }
            } else {
                text::lemma_join_concat(lines.drop_last(), seq![lines.last()], "\n"@);
                assert(lines.drop_last() + seq![lines.last()] == lines);
            }
        }
        assert forall|k: int| 0 <= k < entries.len() implies #[trigger] menu_item(lines[k])
            == menu_entry_of(entries[k]) by {
            lemma_menu_line_read(entries[k]);
        }
        assert(lines.map_values(|l: Seq<char>| menu_item(l)) == entries.map_values(
            |e: EntryView| menu_entry_of(e),
        ));
    }
}

/// The separator of the cached book details.
pub open spec fn cache_sep() -> Seq<char> {
    "|||"@
}

/// The cached details as text: title, author, description, tags and menu
/// address, separated by `|||`.
pub open spec fn book_cache_text_spec(fields: Seq<Seq<char>>) -> Seq<char> {
    text::join(fields, cache_sep())
}

/// The details that a cache text holds: its first five `|||`-separated
/// pieces, when there are at least five.
pub open spec fn book_cache_fields(t: Seq<char>) -> Option<Seq<Seq<char>>> {
    let parts = text::split_pat(t, cache_sep());
    if parts.len() >= 5 {
        Some(parts.take(5))
    } else {
        None
    }
}

impl BookCache {
    /// The details as a sequence of their texts, in cache order.
    pub open spec fn fields(&self) -> Seq<Seq<char>> {
        seq![self.title@, self.author@, self.description@, self.tags@, self.menu_url@]
    }

    /// The text the details are cached as.
    pub fn to_text(&self) -> (r: String)
        ensures
            r@ == book_cache_text_spec(self.fields()),
    {
        let mut parts: Vec<String> = Vec::new();
        parts.push(self.title.clone());
        parts.push(self.author.clone());
        parts.push(self.description.clone());
        parts.push(self.tags.clone());
        parts.push(self.menu_url.clone());
        assert(parts.deep_view() == self.fields());
        join_strings(&parts, "|||")
    }

    /// The details a cache text holds; `None` when it has fewer than five
    /// pieces.
    pub fn parse(t: &str) -> (r: Option<BookCache>)
        ensures
            r matches Some(c) ==> book_cache_fields(t@) == Some(c.fields()),
            r is None <==> book_cache_fields(t@) is None,
    {
        proof {
            reveal_strlit("|||");
        }
        let parts = split_str(t, "|||");
        if parts.len() < 5 {
            return None;
        }
        let c = BookCache {
            title: parts[0].clone(),
            author: parts[1].clone(),
            description: parts[2].clone(),
            tags: parts[3].clone(),
            menu_url: parts[4].clone(),
        };
        assert(parts.deep_view().take(5) == c.fields());
        Some(c)
    }
}

/// A field that `|||` follows in the cache text holds no occurrence of
/// `|||` that starts inside it: it holds no `|||` and does not end in `|`.
proof fn lemma_field_before_sep(f: Seq<char>)
    requires
        !text::contains(f, cache_sep()),
        f.len() > 0 ==> f.last() != '|',
    ensures
        text::no_match_before(f + cache_sep(), cache_sep(), f.len() as int),
{
    reveal_strlit("|||");
    let s = f + cache_sep();
    assert forall|i: int| 0 <= i < f.len() implies !text::occurs_at(s, cache_sep(), i) by {
        if text::occurs_at(s, cache_sep(), i) {
            if i + 3 <= f.len() {
                assert(s.subrange(i, i + 3) == f.subrange(i, i + 3));
                assert(text::occurs_at(f, cache_sep(), i));
            } else {
                assert(s.subrange(i, i + 3)[f.len() - 1 - i] == s[f.len() - 1]);
                assert(s[f.len() - 1] == f.last());
            }
        }
    }
}

/// Details cached as text are read back unchanged when none of them holds
/// `|||` and none but the last ends in `|`.
pub proof fn lemma_book_cache_roundtrip(fields: Seq<Seq<char>>)
    requires
        fields.len() == 5,
        forall|k: int| 0 <= k < 5 ==> !text::contains(#[trigger] fields[k], cache_sep()),
        forall|k: int| 0 <= k < 4 ==> #[trigger] fields[k].len() > 0 ==> fields[k].last() != '|',
    ensures
        book_cache_fields(book_cache_text_spec(fields)) == Some(fields),
{
    reveal_strlit("|||");
    assert forall|k: int| 0 <= k < fields.len() - 1 implies text::no_match_before(
        #[trigger] fields[k] + cache_sep(),
        cache_sep(),
        fields[k].len() as int,
    ) by {
        lemma_field_before_sep(fields[k]);
    }
    let last = fields.last();
    assert(!text::contains(fields[4], cache_sep()));
    assert forall|i: int| 0 <= i < last.len() implies !text::occurs_at(last, cache_sep(), i) by {
        if text::occurs_at(last, cache_sep(), i) {
            assert(text::contains(fields[4], cache_sep()));
        }
    }
    text::lemma_split_pat_join(fields, cache_sep());
    assert(fields.take(5) == fields);
}

impl ContentPager {
    /// Nothing read yet.
    pub fn new() -> (p: ContentPager)
        ensures
            p.html@ == Seq::<char>::empty(),
            p.img_list@ == Seq::<crate::img::PageImgs>::empty(),
    {
        ContentPager { html: String::new(), img_list: ImgList::new() }
    }

    /// The prefix of the image names of the next page:
    /// `{prefix}{pages with images so far}-`.
    pub fn page_img_prefix(&self, prefix: &str) -> (r: String)
        ensures
            r@ == prefix@ + text::decimal(self.img_list@.len()) + "-"@,
    {
        let mut r = String::from_str(prefix);
        r.append(usize_to_decimal(self.img_list.inner.len()).as_str());
        r.append("-");
        r
    }

    /// Records page `url`: its image addresses `imgs` (one per line; none if
    /// blank), its text `page_html`, and the neighbour address `next` it
    /// names. Gives the next page to read: `next` when it holds `_`.
    pub fn add_page(&mut self, url: &str, imgs: &str, page_html: &str, next: &str) -> (r: Option<
        String,
    >)
        ensures
            final(self).html@ == old(self).html@ + page_html@,
            final(self).img_list@ == (if text::is_blank(imgs@) {
                old(self).img_list@
            } else {
                crate::img::push_img_spec(old(self).img_list@, url@, text::trim(imgs@))
            }),
            r matches Some(n) ==> text::contains(next@, "_"@) && n@ == next@,
            r is None ==> !text::contains(next@, "_"@),
    {
        if !is_blank_str(imgs) {
            let t = trim_str(imgs);
            self.img_list.push_img(url, t.as_str());
        }
        self.html.append(page_html);
        if contains_str(next, "_") {
            Some(String::from_str(next))
        } else {
            None
        }
    }

    /// The chapter's text and its image list as text.
    pub fn finish(self) -> (r: (String, String))
        ensures
            r.0@ == self.html@,
            r.1@ == crate::img::img_list_text(self.img_list@),
    {
        let t = self.img_list.to_string();
        (self.html, t)
    }
}

/// The images of each listed page: page `i` of the list that `src`
/// describes gets the prefix `{prefix}{i}-`.
pub open spec fn page_images_spec(book_id: Seq<char>, src: Seq<char>, prefix: Seq<char>) -> Seq<
    (Seq<char>, Seq<crate::img::ImgSrcView>),
> {
    let l = crate::img::img_list_from(src);
    Seq::new(
        l.len(),
        |i: int|
            (
                l[i].0,
                crate::img::img_src_list(
                    book_id,
                    text::join(l[i].1, "\n"@),
                    prefix + text::decimal(i as nat) + "-"@,
                ),
            ),
    )
}

/// The views of the per-page image lists.
pub open spec fn page_image_views(v: Seq<(String, Vec<ImgSrc>)>) -> Seq<
    (Seq<char>, Seq<crate::img::ImgSrcView>),
> {
    v.map_values(|e: (String, Vec<ImgSrc>)| (e.0@, crate::img::img_views(e.1@)))
}

/// The images of book `book_id` listed in the image list text `src`, page
/// by page.
pub fn page_images(book_id: &str, src: &str, prefix: &str) -> (r: Vec<(String, Vec<ImgSrc>)>)
    ensures
        page_image_views(r@) == page_images_spec(book_id@, src@, prefix@),
{
    let list = ImgList::from(src);
    let ghost l = list@;
    let mut r: Vec<(String, Vec<ImgSrc>)> = Vec::new();
    let mut i: usize = 0;
    while i < list.inner.len()
        invariant
            l == list@,
            l == crate::img::img_list_from(src@),
            crate::img::img_list_wf(l),
            i <= list.inner.len(),
            page_image_views(r@) == page_images_spec(book_id@, src@, prefix@).take(i as int),
        decreases list.inner.len() - i,
    {
        let page = &list.inner[i].0;
        assert(l[i as int].0 == page@);
        assert(l[i as int].0.len() > 0);
        let joined = join_strings(&list.inner[i].1, "\n");
        let mut p = String::from_str(prefix);
        p.append(usize_to_decimal(i).as_str());
        p.append("-");
        let imgs = get_img_src(book_id, joined.as_str(), p.as_str());
        let ghost before = r@;
        r.push((page.clone(), imgs));
        assert(page_image_views(r@) == page_image_views(before).push(
            page_images_spec(book_id@, src@, prefix@)[i as int],
        ));
        assert(page_images_spec(book_id@, src@, prefix@).take(i + 1) == page_images_spec(
            book_id@,
            src@,
            prefix@,
        ).take(i as int).push(page_images_spec(book_id@, src@, prefix@)[i as int]));
        i = i + 1;
    }
    assert(page_images_spec(book_id@, src@, prefix@).take(list.inner.len() as int)
        == page_images_spec(book_id@, src@, prefix@));
    r
}

} // verus!

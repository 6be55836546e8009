//! Images of a chapter: where each one is cached and stored in the book, and
//! the per-page lists that a chapter's image addresses are kept in.
use crate::text;
use crate::text::{
    contains_str, is_blank_str, join_strings, split_on, str_eq, usize_to_decimal,
};
use vstd::prelude::*;
use vstd::string::*;

verus! {

/// One image of a chapter.
#[derive(Debug)]
pub struct ImgSrc {
    filename: String,
    url: String,
    book_id: String,
}

/// What an image record holds.
pub struct ImgSrcView {
    pub filename: Seq<char>,
    pub url: Seq<char>,
    pub book_id: Seq<char>,
}

impl View for ImgSrc {
    type V = ImgSrcView;

    closed spec fn view(&self) -> ImgSrcView {
        ImgSrcView { filename: self.filename@, url: self.url@, book_id: self.book_id@ }
    }
}

/// The directory that images go to, in the cache and in the book.
pub open spec fn images_dir() -> Seq<char> {
    "Images"@
}

/// Where an image sits inside the book: `Images/{filename}`.
pub open spec fn epub_path_of(v: ImgSrcView) -> Seq<char> {
    images_dir() + "/"@ + v.filename
}

/// Where an image is cached: `temp/{book_id}/Images/{filename}`.
pub open spec fn cache_path_of(v: ImgSrcView) -> Seq<char> {
    "temp/"@ + v.book_id + "/"@ + images_dir() + "/"@ + v.filename
}

/// The cache path of an image is its path in the book, under the book's cache
/// directory `temp/{book_id}/`.
pub proof fn lemma_cache_path_extends_epub_path(v: ImgSrcView)
    ensures
        cache_path_of(v) == "temp/"@ + v.book_id + "/"@ + epub_path_of(v),
{
    assert(cache_path_of(v) == "temp/"@ + v.book_id + "/"@ + epub_path_of(v));
}

impl ImgSrc {
    /// The image `url` of book `book_id`, stored under the name `filename`.
    pub fn new(filename: String, url: String, book_id: String) -> (r: ImgSrc)
        ensures
            r@.filename == filename@,
            r@.url == url@,
            r@.book_id == book_id@,
    {
        ImgSrc { filename, url, book_id }
    }

    /// Where the image is downloaded from.
    pub fn url(&self) -> (r: &str)
        ensures
            r@ == self@.url,
    {
        self.url.as_str()
    }

    /// The name the image is stored under.
    pub fn filename(&self) -> (r: &str)
        ensures
            r@ == self@.filename,
    {
        self.filename.as_str()
    }

    /// Where the image is cached.
    pub fn cache_path(&self) -> (r: String)
        ensures
            r@ == cache_path_of(self@),
    {
        let mut r = String::from_str("temp/");
        r.append(self.book_id.as_str());
        r.append("/");
        r.append(Self::dir_name());
        r.append("/");
        r.append(self.filename.as_str());
        r
    }

    /// Where the image sits inside the book.
    pub fn epub_path(&self) -> (r: String)
        ensures
            r@ == epub_path_of(self@),
    {
        let mut r = String::from_str(Self::dir_name());
        r.append("/");
        r.append(self.filename.as_str());
        r
    }

    /// The directory that images go to.
    pub fn dir_name() -> (r: &'static str)
        ensures
            r@ == images_dir(),
    {
        "Images"
    }
}

/// The images listed in `pieces`, one address per piece: blank pieces are
/// skipped, and the image of piece `k` is named `{prefix}{k}.jpg`.
pub open spec fn img_srcs(pieces: Seq<Seq<char>>, prefix: Seq<char>, book_id: Seq<char>) -> Seq<
    ImgSrcView,
>
    decreases pieces.len(),
{
    if pieces.len() == 0 {
        seq![]
    } else {
        let r = img_srcs(pieces.drop_last(), prefix, book_id);
        if text::is_blank(pieces.last()) {
            r
        } else {
            r.push(
                ImgSrcView {
                    filename: prefix + text::decimal((pieces.len() - 1) as nat) + ".jpg"@,
                    url: pieces.last(),
                    book_id,
                },
            )
        }
    }
}

/// The images of `pieces` come from its non-blank pieces, all of them, in
/// order: image `j` comes from the piece at `lines[j]`, has that piece as its
/// address and is named `{prefix}{lines[j]}.jpg` with the position written
/// in decimal. So no two images share a name.
pub proof fn lemma_img_srcs_lines(pieces: Seq<Seq<char>>, prefix: Seq<char>, book_id: Seq<char>) -> (lines: Seq<int>)
    ensures
        lines.len() == img_srcs(pieces, prefix, book_id).len(),
        forall|j: int|
            0 <= j < lines.len() ==> {
                let k = #[trigger] lines[j];
                &&& 0 <= k < pieces.len()
                &&& !text::is_blank(pieces[k])
                &&& img_srcs(pieces, prefix, book_id)[j] == ImgSrcView {
                    filename: prefix + text::decimal(k as nat) + ".jpg"@,
                    url: pieces[k],
                    book_id,
                }
            },
        forall|i: int, j: int| 0 <= i < j < lines.len() ==> lines[i] < lines[j],
        forall|k: int|
            0 <= k < pieces.len() && !text::is_blank(#[trigger] pieces[k]) ==> lines.contains(k),
        forall|i: int, j: int|
            0 <= i < j < lines.len() ==> img_srcs(pieces, prefix, book_id)[i].filename
                != img_srcs(pieces, prefix, book_id)[j].filename,
    decreases pieces.len(),
{
    if pieces.len() == 0 {
        seq![]
    } else {
        let init = pieces.drop_last();
        let l0 = lemma_img_srcs_lines(init, prefix, book_id);
        let n = pieces.len() - 1;
        let lines = if text::is_blank(pieces.last()) {
            l0
        } else {
            l0.push(n)
        };
        let r = img_srcs(pieces, prefix, book_id);
        assert forall|j: int|
            0 <= j < lines.len() implies {
                let k = #[trigger] lines[j];
                &&& 0 <= k < pieces.len()
                &&& !text::is_blank(pieces[k])
                &&& r[j] == ImgSrcView {
                    filename: prefix + text::decimal(k as nat) + ".jpg"@,
                    url: pieces[k],
                    book_id,
                }
            } by {
            if j < l0.len() {
                assert(lines[j] == l0[j]);
                assert(init[l0[j]] == pieces[l0[j]]);
            }
        }
        assert forall|k: int|
            0 <= k < pieces.len() && !text::is_blank(#[trigger] pieces[k]) implies lines.contains(
            k,
        ) by {
            if k < n {
                assert(init[k] == pieces[k]);
                assert(l0.contains(k));
                let w = choose|w: int| 0 <= w < l0.len() && l0[w] == k;
                assert(lines[w] == k);
            } else {
                assert(lines[l0.len() as int] == k);
            }
        }
        assert forall|i: int, j: int| 0 <= i < j < lines.len() implies r[i].filename
            != r[j].filename by {
            let a = lines[i];
            let b = lines[j];
            if r[i].filename == r[j].filename {
                text::lemma_decimal_name_injective(prefix, ".jpg"@, a as nat, b as nat);
            }
        }
        lines
    }
}

/// The images of a newline-separated list of addresses.
pub open spec fn img_src_list(book_id: Seq<char>, src: Seq<char>, prefix: Seq<char>) -> Seq<
    ImgSrcView,
> {
    if src.len() == 0 {
        seq![]
    } else {
        img_srcs(text::split(src, '\n'), prefix, book_id)
    }
}

/// The views of a list of image records.
pub open spec fn img_views(v: Seq<ImgSrc>) -> Seq<ImgSrcView> {
    v.map_values(|x: ImgSrc| x@)
}

/// The images of book `book_id` whose addresses `src` lists, one per line;
/// the image on line `k` is named `{img_src_prefix}{k}.jpg`.
pub fn get_img_src(book_id: &str, src: &str, img_src_prefix: &str) -> (res: Vec<ImgSrc>)
    ensures
        img_views(res@) == img_src_list(book_id@, src@, img_src_prefix@),
        forall|i: int, j: int|
            0 <= i < j < res.len() ==> res@[i]@.filename != res@[j]@.filename,
{
    let mut res: Vec<ImgSrc> = Vec::new();
    if text::chars_of(src).len() == 0 {
        assert(img_views(res@) == Seq::<ImgSrcView>::empty());
        return res;
    }
    let pieces = split_on(src, '\n');
    let ghost pv = pieces.deep_view();
    let mut i: usize = 0;
    assert(pv.take(0) == Seq::<Seq<char>>::empty());
    while i < pieces.len()
        invariant
            pv == pieces.deep_view(),
            i <= pieces.len(),
            img_views(res@) == img_srcs(pv.take(i as int), img_src_prefix@, book_id@),
        decreases pieces.len() - i,
    {
        let piece = pieces[i].as_str();
        assert(pv.take(i + 1).drop_last() == pv.take(i as int));
        assert(pv.take(i + 1).last() == piece@);
        if !is_blank_str(piece) {
            let mut filename = String::from_str(img_src_prefix);
            filename.append(usize_to_decimal(i).as_str());
            filename.append(".jpg");
            let item = ImgSrc::new(filename, String::from_str(piece), String::from_str(book_id));
            let ghost before = res@;
            res.push(item);
            assert(img_views(res@) == img_views(before).push(item@));
        }
        i = i + 1;
    }
    assert(pv.take(pieces.len() as int) == pv);
    proof {
        let _ = lemma_img_srcs_lines(pv, img_src_prefix@, book_id@);
        assert forall|i: int, j: int| 0 <= i < j < res.len() implies res@[i]@.filename
            != res@[j]@.filename by {
            assert(img_views(res@)[i] == res@[i]@);
            assert(img_views(res@)[j] == res@[j]@);
        }
    }
    res
}


/// A page address with the image addresses found on it.
pub type PageImgs = (Seq<char>, Seq<Seq<char>>);

/// The position of `page` in the list, if it is there.
pub open spec fn page_index(l: Seq<PageImgs>, page: Seq<char>) -> Option<int> {
    l.map_values(|e: PageImgs| e.0).index_of_first(page)
}

/// The list after recording `img` on `page`: appended to that page's
/// images when the page is listed, as a new last page otherwise; nothing
/// changes when either is empty.
pub open spec fn push_img_spec(l: Seq<PageImgs>, page: Seq<char>, img: Seq<char>) -> Seq<
    PageImgs,
> {
    if page.len() == 0 || img.len() == 0 {
        l
    } else {
        match page_index(l, page) {
            Some(k) => l.update(k, (l[k].0, l[k].1.push(img))),
            None => l.push((page, seq![img])),
        }
    }
}

/// Every page and image address is non-empty, every page has an image, and
/// no page is listed twice.
pub open spec fn img_list_wf(l: Seq<PageImgs>) -> bool {
    &&& forall|k: int|
        0 <= k < l.len() ==> {
            &&& (#[trigger] l[k]).0.len() > 0
            &&& l[k].1.len() > 0
            &&& forall|j: int| 0 <= j < l[k].1.len() ==> (#[trigger] l[k].1[j]).len() > 0
        }
    &&& forall|a: int, b: int| 0 <= a < b < l.len() ==> (#[trigger] l[a]).0 != (#[trigger] l[b]).0
}

/// One line read: a line naming an `.html` page makes it the current page;
/// any other line is an image of the current page, once there is one.
pub open spec fn read_step(st: (Seq<PageImgs>, Seq<char>), ele: Seq<char>) -> (
    Seq<PageImgs>,
    Seq<char>,
) {
    let (l, page) = st;
    if text::contains(ele, ".html"@) {
        (l, ele)
    } else if page.len() > 0 {
        (push_img_spec(l, page, ele), page)
    } else {
        (l, page)
    }
}

/// The list and current page after reading `lines` in order from `st`.
pub open spec fn read_lines_from(st: (Seq<PageImgs>, Seq<char>), lines: Seq<Seq<char>>) -> (
    Seq<PageImgs>,
    Seq<char>,
)
    decreases lines.len(),
{
    if lines.len() == 0 {
        st
    } else {
        read_step(read_lines_from(st, lines.drop_last()), lines.last())
    }
}

/// The list and current page after reading `lines` from an empty list.
pub open spec fn read_lines(lines: Seq<Seq<char>>) -> (Seq<PageImgs>, Seq<char>) {
    read_lines_from((seq![], seq![]), lines)
}

/// The list that a newline-separated text describes.
pub open spec fn img_list_from(src: Seq<char>) -> Seq<PageImgs> {
    read_lines(text::split(src, '\n')).0
}

/// One page as text: its address, then its images, one per line.
pub open spec fn page_text(e: PageImgs) -> Seq<char> {
    e.0 + "\n"@ + text::join(e.1, "\n"@)
}

/// The whole list as text, pages one after another.
pub open spec fn img_list_text(l: Seq<PageImgs>) -> Seq<char> {
    text::join(l.map_values(|e: PageImgs| page_text(e)), "\n"@)
}

/// The images of a chapter, grouped by the page they were found on.
#[derive(Debug)]
pub struct ImgList {
    pub inner: Vec<(String, Vec<String>)>,
}

impl View for ImgList {
    type V = Seq<PageImgs>;

    open spec fn view(&self) -> Seq<PageImgs> {
        self.inner.deep_view()
    }
}

/// Recording an image keeps the list well formed.
pub proof fn lemma_push_img_wf(l: Seq<PageImgs>, page: Seq<char>, img: Seq<char>)
    requires
        img_list_wf(l),
    ensures
        img_list_wf(push_img_spec(l, page, img)),
{
    let pages = l.map_values(|e: PageImgs| e.0);
    pages.index_of_first_ensures(page);
    if page.len() > 0 && img.len() > 0 {
        match page_index(l, page) {
            Some(k) => {
                let r = l.update(k, (l[k].0, l[k].1.push(img)));
                assert forall|a: int| 0 <= a < r.len() implies {
                    &&& (#[trigger] r[a]).0.len() > 0
                    &&& r[a].1.len() > 0
                    &&& forall|j: int| 0 <= j < r[a].1.len() ==> (#[trigger] r[a].1[j]).len() > 0
                } by {
                    if a == k {
                        assert forall|j: int| 0 <= j < r[a].1.len() implies (
                        #[trigger] r[a].1[j]).len() > 0 by {
                            if j < l[k].1.len() {
                                assert(r[a].1[j] == l[k].1[j]);
                            }
                        }
                    } else {
                        assert(r[a] == l[a]);
                    }
                }
                assert forall|a: int, b: int| 0 <= a < b < r.len() implies (#[trigger] r[a]).0
                    != (#[trigger] r[b]).0 by {
                    assert(l[a].0 != l[b].0);
                }
            },
            None => {
                let r = l.push((page, seq![img]));
                assert forall|a: int| 0 <= a < r.len() implies {
                    &&& (#[trigger] r[a]).0.len() > 0
                    &&& r[a].1.len() > 0
                    &&& forall|j: int| 0 <= j < r[a].1.len() ==> (#[trigger] r[a].1[j]).len() > 0
                } by {
                    if a < l.len() {
                        assert(r[a] == l[a]);
                    }
                }
                assert forall|a: int, b: int| 0 <= a < b < r.len() implies (#[trigger] r[a]).0
                    != (#[trigger] r[b]).0 by {
                    if b == l.len() {
                        assert(pages[a] == l[a].0);
                        assert(!pages.contains(page));
                    } else {
                        assert(l[a].0 != l[b].0);
                    }
                }
            },
        }
    }
}

/// Reading lines always gives a well-formed list.
pub proof fn lemma_read_lines_wf(lines: Seq<Seq<char>>)
    ensures
        img_list_wf(read_lines(lines).0),
    decreases lines.len(),
{
    if lines.len() > 0 {
        lemma_read_lines_wf(lines.drop_last());
        let (l, page) = read_lines(lines.drop_last());
        lemma_push_img_wf(l, page, lines.last());
    }
    assert(img_list_wf(Seq::<PageImgs>::empty()));
}

/// The lines of the list's text: each page's address followed by its images.
pub open spec fn list_lines(l: Seq<PageImgs>) -> Seq<Seq<char>>
    decreases l.len(),
{
    if l.len() == 0 {
        seq![]
    } else {
        list_lines(l.drop_last()) + (seq![l.last().0] + l.last().1)
    }
}

/// Every page names an `.html` page, no image address does, and no address
/// holds a line break: the list can be written as text and read back.
pub open spec fn img_list_printable(l: Seq<PageImgs>) -> bool {
    forall|k: int|
        0 <= k < l.len() ==> {
            &&& text::contains((#[trigger] l[k]).0, ".html"@)
            &&& text::lacks(l[k].0, '\n')
            &&& forall|j: int|
                0 <= j < l[k].1.len() ==> {
                    &&& text::lacks(#[trigger] l[k].1[j], '\n')
                    &&& !text::contains(l[k].1[j], ".html"@)
                }
        }
}

proof fn lemma_list_text_lines(l: Seq<PageImgs>)
    requires
        l.len() >= 1,
        forall|k: int| 0 <= k < l.len() ==> (#[trigger] l[k]).1.len() >= 1,
    ensures
        img_list_text(l) == text::join(list_lines(l), "\n"@),
        list_lines(l).len() >= 1,
    decreases l.len(),
{
    let e = l.last();
    assert(e == l[l.len() - 1]);
    let entry_lines = seq![e.0] + e.1;
    text::lemma_join_concat(seq![e.0], e.1, "\n"@);
    assert(text::join(seq![e.0], "\n"@) == e.0);
    assert(text::join(entry_lines, "\n"@) == page_text(e));
    let texts = l.map_values(|x: PageImgs| page_text(x));
    if l.len() == 1 {
        assert(list_lines(l.drop_last()) == Seq::<Seq<char>>::empty());
        assert(list_lines(l) == entry_lines);
        assert(texts == seq![page_text(e)]);
    } else {
        let init = l.drop_last();
        assert forall|k: int| 0 <= k < init.len() implies (#[trigger] init[k]).1.len() >= 1 by {
            assert(init[k] == l[k]);
        }
        lemma_list_text_lines(init);
        assert(texts.drop_last() == init.map_values(|x: PageImgs| page_text(x)));
        assert(texts.last() == page_text(e));
        text::lemma_join_concat(list_lines(init), entry_lines, "\n"@);
    }
}

proof fn lemma_read_concat(
    st: (Seq<PageImgs>, Seq<char>),
    a: Seq<Seq<char>>,
    b: Seq<Seq<char>>,
)
    ensures
        read_lines_from(st, a + b) == read_lines_from(read_lines_from(st, a), b),
    decreases b.len(),
{
    if b.len() == 0 {
        assert(a + b == a);
    } else {
        lemma_read_concat(st, a, b.drop_last());
        assert((a + b).drop_last() == a + b.drop_last());
        assert((a + b).last() == b.last());
    }
}

proof fn lemma_read_entry_prefix(
    l: Seq<PageImgs>,
    q: Seq<char>,
    p: Seq<char>,
    imgs: Seq<Seq<char>>,
    j: int,
)
    requires
        0 <= j <= imgs.len(),
        !l.map_values(|e: PageImgs| e.0).contains(p),
        text::contains(p, ".html"@),
        forall|i: int|
            0 <= i < imgs.len() ==> (#[trigger] imgs[i]).len() > 0 && !text::contains(
                imgs[i],
                ".html"@,
            ),
    ensures
        read_lines_from((l, q), seq![p] + imgs.take(j)) == (if j == 0 {
            (l, p)
        } else {
            (l.push((p, imgs.take(j))), p)
        }),
    decreases j,
{
    let pages = l.map_values(|e: PageImgs| e.0);
    let lines = seq![p] + imgs.take(j);
    if j == 0 {
        assert(lines == seq![p]);
        assert(lines.drop_last() == Seq::<Seq<char>>::empty());
        assert(lines.last() == p);
        assert(read_lines_from((l, q), lines.drop_last()) == (l, q));
        assert(read_step((l, q), p) == (l, p));
    } else {
        lemma_read_entry_prefix(l, q, p, imgs, j - 1);
        assert(lines.drop_last() == seq![p] + imgs.take(j - 1));
        assert(lines.last() == imgs[j - 1]);
        let img = imgs[j - 1];
        assert(img.len() > 0 && !text::contains(img, ".html"@));
        assert(p.len() > 0) by {
            let i = choose|i: int| text::occurs_at(p, ".html"@, i);
            reveal_strlit(".html");
        }
        if j == 1 {
            pages.index_of_first_ensures(p);
            assert(page_index(l, p) is None);
            assert(imgs.take(1) == seq![img]);
            assert(push_img_spec(l, p, img) == l.push((p, imgs.take(1))));
            assert(read_step((l, p), img) == (l.push((p, imgs.take(1))), p));
        } else {
            let prev = l.push((p, imgs.take(j - 1)));
            let pages2 = prev.map_values(|e: PageImgs| e.0);
            assert(pages2 == pages.push(p));
            pages2.index_of_first_ensures(p);
            assert(pages2[l.len() as int] == p);
            let k = pages2.index_of_first(p).unwrap();
            if k < l.len() {
                assert(pages[k] == pages2[k]);
                assert(pages.contains(p));
            }
            assert(page_index(prev, p) == Some(l.len() as int));
            assert(imgs.take(j - 1).push(img) == imgs.take(j));
            assert(prev.update(l.len() as int, (p, imgs.take(j))) == l.push((p, imgs.take(j))));
            assert(push_img_spec(prev, p, img) == l.push((p, imgs.take(j))));
            assert(read_step((prev, p), img) == (l.push((p, imgs.take(j))), p));
        }
    }
}

proof fn lemma_read_list_prefix(l: Seq<PageImgs>, k: int)
    requires
        0 <= k <= l.len(),
        img_list_wf(l),
        img_list_printable(l),
    ensures
        read_lines(list_lines(l.take(k))).0 == l.take(k),
    decreases k,
{
    if k == 0 {
        assert(l.take(0) == Seq::<PageImgs>::empty());
    } else {
        lemma_read_list_prefix(l, k - 1);
        let prev = l.take(k - 1);
        let e = l[k - 1];
        assert(l.take(k).drop_last() == prev);
        assert(l.take(k).last() == e);
        let st = read_lines(list_lines(prev));
        lemma_read_concat((seq![], seq![]), list_lines(prev), seq![e.0] + e.1);
        let pages = prev.map_values(|x: PageImgs| x.0);
        if pages.contains(e.0) {
            let i = choose|i: int| 0 <= i < pages.len() && pages[i] == e.0;
            assert(l[i].0 != l[k - 1].0);
        }
        assert forall|i: int|
            0 <= i < e.1.len() implies (#[trigger] e.1[i]).len() > 0 && !text::contains(
            e.1[i],
            ".html"@,
        ) by {
            assert(l[k - 1].1[i] == e.1[i]);
        }
        lemma_read_entry_prefix(prev, st.1, e.0, e.1, e.1.len() as int);
        assert(e.1.take(e.1.len() as int) == e.1);
        assert(prev.push((e.0, e.1)) == l.take(k));
    }
}

/// Writing a printable, well-formed list as text and reading the text back
/// gives the same list.
pub proof fn lemma_img_list_text_roundtrip(l: Seq<PageImgs>)
    requires
        img_list_wf(l),
        img_list_printable(l),
    ensures
        img_list_from(img_list_text(l)) == l,
{
    reveal_strlit("\n");
    reveal_strlit(".html");
    if l.len() == 0 {
        assert(img_list_text(l) == Seq::<char>::empty());
        assert(text::split(Seq::<char>::empty(), '\n') == seq![Seq::<char>::empty()]);
        assert(!text::contains(Seq::<char>::empty(), ".html"@));
        assert(seq![Seq::<char>::empty()].drop_last() == Seq::<Seq<char>>::empty());
        assert(read_step((seq![], seq![]), Seq::<char>::empty()) == (
            Seq::<PageImgs>::empty(),
            Seq::<char>::empty(),
        ));
        let one = seq![Seq::<char>::empty()];
        assert(one.last() == Seq::<char>::empty());
        assert(one.drop_last().len() == 0);
        let init: (Seq<PageImgs>, Seq<char>) = (seq![], seq![]);
        assert(read_lines_from(init, one.drop_last()) == init);
        assert(read_lines_from(init, one) == read_step(init, Seq::<char>::empty()));
        assert(read_lines(one).0 == Seq::<PageImgs>::empty());
        assert(l == Seq::<PageImgs>::empty());
    } else {
        assert forall|k: int| 0 <= k < l.len() implies (#[trigger] l[k]).1.len() >= 1 by {}
        lemma_list_text_lines(l);
        lemma_list_lines_lack(l);
        assert("\n"@ == seq!['\n']);
        text::lemma_split_join(list_lines(l), '\n');
        lemma_read_list_prefix(l, l.len() as int);
        assert(l.take(l.len() as int) == l);
        assert(img_list_text(l) == text::join(list_lines(l), seq!['\n']));
        assert(text::split(img_list_text(l), '\n') == list_lines(l));
        assert(read_lines(list_lines(l)).0 == l);
    }
}

proof fn lemma_list_lines_lack(l: Seq<PageImgs>)
    requires
        img_list_printable(l),
    ensures
        forall|i: int|
            0 <= i < list_lines(l).len() ==> text::lacks(#[trigger] list_lines(l)[i], '\n'),
    decreases l.len(),
{
    if l.len() > 0 {
        let init = l.drop_last();
        assert forall|k: int| 0 <= k < init.len() implies {
            &&& text::contains((#[trigger] init[k]).0, ".html"@)
            &&& text::lacks(init[k].0, '\n')
            &&& forall|j: int|
                0 <= j < init[k].1.len() ==> {
                    &&& text::lacks(#[trigger] init[k].1[j], '\n')
                    &&& !text::contains(init[k].1[j], ".html"@)
                }
        } by {
            assert(init[k] == l[k]);
        }
        lemma_list_lines_lack(init);
        let e = l.last();
        assert(e == l[l.len() - 1]);
        let a = list_lines(init);
        let b = seq![e.0] + e.1;
        assert forall|i: int| 0 <= i < list_lines(l).len() implies text::lacks(
            #[trigger] list_lines(l)[i],
            '\n',
        ) by {
            if i < a.len() {
                assert(list_lines(l)[i] == a[i]);
            } else if i == a.len() {
                assert(list_lines(l)[i] == e.0);
            } else {
                assert(list_lines(l)[i] == e.1[i - a.len() - 1]);
            }
        }
    }
}

impl ImgList {
    /// An empty list.
    pub fn new() -> (r: ImgList)
        ensures
            r@ == Seq::<PageImgs>::empty(),
    {
        ImgList { inner: Vec::new() }
    }

    fn find_page(&self, page: &str) -> (r: Option<usize>)
        ensures
            r matches Some(k) ==> page_index(self@, page@) == Some(k as int),
            r is None ==> page_index(self@, page@) is None,
    {
        let ghost pages = self@.map_values(|e: PageImgs| e.0);
        let mut i: usize = 0;
        while i < self.inner.len()
            invariant
                pages == self@.map_values(|e: PageImgs| e.0),
                i <= self.inner.len(),
                forall|k: int| 0 <= k < i ==> pages[k] != page@,
            decreases self.inner.len() - i,
        {
            assert(pages[i as int] == self.inner[i as int].0@);
            if str_eq(self.inner[i].0.as_str(), page) {
                proof {
                    pages.index_of_first_ensures(page@);
                    assert(pages.contains(page@));
                    let j = pages.index_of_first(page@).unwrap();
                    if j < i {
                        assert(pages[j] != page@);
                    } else if j > i {
                        assert(0 <= i < j < pages.len());
                    }
                }
                return Some(i);
            }
            i = i + 1;
        }
        proof {
            pages.index_of_first_ensures(page@);
            if pages.contains(page@) {
                let j = choose|j: int| 0 <= j < pages.len() && pages[j] == page@;
                assert(pages[j] != page@);
            }
        }
        None
    }

    /// Records `img` as found on `page`; nothing happens when either is empty.
    pub fn push_img(&mut self, page: &str, img: &str)
        ensures
            final(self)@ == push_img_spec(old(self)@, page@, img@),
            img_list_wf(old(self)@) ==> img_list_wf(final(self)@),
    {
        proof {
            if img_list_wf(old(self)@) {
                lemma_push_img_wf(old(self)@, page@, img@);
            }
            old(self)@.map_values(|e: PageImgs| e.0).index_of_first_ensures(page@);
        }
        if text::chars_of(page).len() == 0 || text::chars_of(img).len() == 0 {
            return;
        }
        match self.find_page(page) {
            Some(k) => {
                let ghost before = self@;
                assert(k < self.inner.len());
                self.inner[k].1.push(String::from_str(img));
                assert(self@[k as int].1 =~= before[k as int].1.push(img@));
                assert(self@ =~= before.update(
                    k as int,
                    (before[k as int].0, before[k as int].1.push(img@)),
                ));
            },
            None => {
                let ghost before = self@;
                let mut imgs: Vec<String> = Vec::new();
                imgs.push(String::from_str(img));
                assert(imgs.deep_view() =~= seq![img@]);
                self.inner.push((String::from_str(page), imgs));
                assert(self@ =~= before.push((page@, seq![img@])));
            },
        }
    }

    /// The list that `src` describes: a line naming an `.html` page starts
    /// that page, the lines after it are its images.
    pub fn from(src: &str) -> (r: ImgList)
        ensures
            r@ == img_list_from(src@),
            img_list_wf(r@),
    {
        proof {
            lemma_read_lines_wf(text::split(src@, '\n'));
        }
        let mut s = ImgList::new();
        let v = split_on(src, '\n');
        let ghost lines = v.deep_view();
        let mut page = String::new();
        let mut i: usize = 0;
        assert(lines.take(0) == Seq::<Seq<char>>::empty());
        while i < v.len()
            invariant
                lines == v.deep_view(),
                i <= v.len(),
                read_lines(lines.take(i as int)) == (s@, page@),
            decreases v.len() - i,
        {
            let ele = v[i].as_str();
            assert(lines.take(i + 1).drop_last() == lines.take(i as int));
            assert(lines.take(i + 1).last() == ele@);
            if contains_str(ele, ".html") {
                page = String::from_str(ele);
            } else if text::chars_of(page.as_str()).len() > 0 {
                s.push_img(page.as_str(), ele);
            }
            i = i + 1;
        }
        assert(lines.take(v.len() as int) == lines);
        s
    }

    /// The list as text: each page's address followed by its images, one
    /// per line.
    pub fn to_string(&self) -> (r: String)
        ensures
            r@ == img_list_text(self@),
    {
        let mut texts: Vec<String> = Vec::new();
        let mut i: usize = 0;
        while i < self.inner.len()
            invariant
                i <= self.inner.len(),
                texts.deep_view() == self@.take(i as int).map_values(|e: PageImgs| page_text(e)),
            decreases self.inner.len() - i,
        {
            let mut t = String::from_str(self.inner[i].0.as_str());
            t.append("\n");
            t.append(join_strings(&self.inner[i].1, "\n").as_str());
            let ghost before = texts.deep_view();
            texts.push(t);
            assert(self@.take(i + 1) == self@.take(i as int).push(self@[i as int]));
            assert(texts.deep_view() =~= before.push(page_text(self@[i as int])));
            i = i + 1;
        }
        assert(self@.take(self.inner.len() as int) == self@);
        join_strings(&texts, "\n")
    }
}

} // verus!

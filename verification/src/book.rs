//! How a book is laid out: which menu entries become chapters and volumes,
//! the file names inside the book, and where things are cached and stored.
use crate::img::ImgSrc;
use crate::text;
use crate::text::{replace_str, u64_to_decimal, usize_to_decimal, usize_to_decimal3};
use std::hash::{Hash, Hasher};
use vstd::prelude::*;
use vstd::string::*;

verus! {

/// What std's default hasher gives for a string.
pub uninterp spec fn default_hash(s: Seq<char>) -> u64;

/// Trusted: std's `DefaultHasher::new`, `<str as Hash>::hash` and
/// `Hasher::finish`. The contract says only that the result is a function of
/// the string: std documents that every hasher made by `DefaultHasher::new`
/// is the same (it is not seeded per process). Which value that is, is left
/// unsaid: std documents neither the algorithm nor that it stays the same
/// from one release to the next.
#[verifier::external_body]
fn str_hash(s: &str) -> (h: u64)
    ensures
        h == default_hash(s@),
{
    let mut h = std::collections::hash_map::DefaultHasher::new();
    s.hash(&mut h);
    h.finish()
}

/// The decimal notation of a 64-bit value.
pub open spec fn decimal_u64(h: u64) -> Seq<char> {
    text::decimal(h as nat)
}

/// A short name for an address: the decimal notation of its hash.
pub fn hash_url(url: &str) -> (r: String)
    ensures
        r@ == decimal_u64(default_hash(url@)),
{
    let h = str_hash(url);
    let r = u64_to_decimal(h);
    assert(r@ == decimal_u64(h));
    r
}

/// A menu entry: the chapter address, if any, and the title. An entry
/// without an address starts a volume.
pub type MenuItem = (Option<Seq<char>>, Seq<char>);

/// The entries with a non-empty title, in order.
pub open spec fn titled(menu: Seq<MenuItem>) -> Seq<MenuItem>
    decreases menu.len(),
{
    if menu.len() == 0 {
        seq![]
    } else {
        let r = titled(menu.drop_last());
        if menu.last().1.len() > 0 {
            r.push(menu.last())
        } else {
            r
        }
    }
}

/// The file of chapter `k`: `Text/{k}.xhtml`.
pub open spec fn chapter_file(k: nat) -> Seq<char> {
    "Text/"@ + text::decimal(k) + ".xhtml"@
}

/// The file of a volume that starts at entry `k`: `{k + 1}.xhtml`.
pub open spec fn volume_file(k: nat) -> Seq<char> {
    text::decimal(k + 1) + ".xhtml"@
}

/// A chapter to fetch: its position among the titled entries, its address,
/// title and file.
pub struct ChapterPlan {
    pub index: usize,
    pub url: String,
    pub title: String,
    pub file_name: String,
}

/// A chapter's parts as sequences.
pub struct ChapterView {
    pub index: usize,
    pub url: Seq<char>,
    pub title: Seq<char>,
    pub file_name: Seq<char>,
}

impl View for ChapterPlan {
    type V = ChapterView;

    open spec fn view(&self) -> ChapterView {
        ChapterView {
            index: self.index,
            url: self.url@,
            title: self.title@,
            file_name: self.file_name@,
        }
    }
}

/// An entry of the book's table of contents: a chapter at the top level (no
/// children) or a volume with its chapters as (title, file) pairs.
pub struct NavPlan {
    pub title: String,
    pub file_name: String,
    pub children: Vec<(String, String)>,
}

/// A table-of-contents entry's parts as sequences.
pub struct NavView {
    pub title: Seq<char>,
    pub file_name: Seq<char>,
    pub children: Seq<(Seq<char>, Seq<char>)>,
}

impl View for NavPlan {
    type V = NavView;

    open spec fn view(&self) -> NavView {
        NavView {
            title: self.title@,
            file_name: self.file_name@,
            children: self.children.deep_view(),
        }
    }
}

/// Where the layout stands after some entries: the chapters, the finished
/// table-of-contents entries, and the volume still open.
pub struct PlanState {
    pub chapters: Seq<ChapterView>,
    pub navs: Seq<NavView>,
    pub cur: Option<NavView>,
}

/// One titled entry, at position `k`, laid out: an entry with an address is
/// a chapter, listed under the open volume or at the top level; one without
/// closes the open volume and opens a new one.
pub open spec fn plan_step(st: PlanState, k: nat, e: MenuItem) -> PlanState {
    match e.0 {
        Some(url) => {
            let ch = ChapterView { index: k as usize, url, title: e.1, file_name: chapter_file(k) };
            match st.cur {
                Some(n) => PlanState {
                    chapters: st.chapters.push(ch),
                    navs: st.navs,
                    cur: Some(
                        NavView {
                            title: n.title,
                            file_name: n.file_name,
                            children: n.children.push((e.1, chapter_file(k))),
                        },
                    ),
                },
                None => PlanState {
                    chapters: st.chapters.push(ch),
                    navs: st.navs.push(
                        NavView { title: e.1, file_name: chapter_file(k), children: seq![] },
                    ),
                    cur: None,
                },
            }
        },
        None => PlanState {
            chapters: st.chapters,
            navs: match st.cur {
                Some(n) => st.navs.push(n),
                None => st.navs,
            },
            cur: Some(NavView { title: e.1, file_name: volume_file(k), children: seq![] }),
        },
    }
}

/// The layout after the titled entries `entries`, in order.
pub open spec fn plan_entries(entries: Seq<MenuItem>) -> PlanState
    decreases entries.len(),
{
    if entries.len() == 0 {
        PlanState { chapters: seq![], navs: seq![], cur: None }
    } else {
        plan_step(
            plan_entries(entries.drop_last()),
            (entries.len() - 1) as nat,
            entries.last(),
        )
    }
}

/// The chapters of a layout are the entries with an address, all of them,
/// in order: chapter `j` comes from the entry at its `index`, keeps that
/// entry's address and title, and is stored in `Text/{index}.xhtml` with the
/// position written in decimal. So no two chapters share a file.
pub proof fn lemma_plan_chapters(entries: Seq<MenuItem>)
    requires
        entries.len() <= usize::MAX,
    ensures
        forall|j: int|
            0 <= j < plan_entries(entries).chapters.len() ==> {
                let c = #[trigger] plan_entries(entries).chapters[j];
                &&& 0 <= c.index < entries.len()
                &&& entries[c.index as int] == (Some(c.url), c.title)
                &&& c.file_name == "Text/"@ + text::decimal(c.index as nat) + ".xhtml"@
            },
        forall|i: int, j: int|
            0 <= i < j < plan_entries(entries).chapters.len() ==> plan_entries(entries).chapters[i].index
                < plan_entries(entries).chapters[j].index,
        forall|k: int|
            0 <= k < entries.len() && (#[trigger] entries[k]).0 is Some ==> plan_entries(
                entries,
            ).chapters.map_values(|c: ChapterView| c.index as int).contains(k),
        forall|i: int, j: int|
            0 <= i < j < plan_entries(entries).chapters.len() ==> plan_entries(entries).chapters[i].file_name
                != plan_entries(entries).chapters[j].file_name,
    decreases entries.len(),
{
    if entries.len() > 0 {
        let init = entries.drop_last();
        lemma_plan_chapters(init);
        let n = entries.len() - 1;
        let c0 = plan_entries(init).chapters;
        let cs = plan_entries(entries).chapters;
        assert forall|j: int| 0 <= j < c0.len() implies #[trigger] cs[j] == c0[j] && entries[c0[j].index as int] == init[c0[j].index as int] by {
            let c = c0[j];
            assert(0 <= c.index < init.len());
        }
        assert forall|j: int|
            0 <= j < cs.len() implies {
                let c = #[trigger] cs[j];
                &&& 0 <= c.index < entries.len()
                &&& entries[c.index as int] == (Some(c.url), c.title)
                &&& c.file_name == "Text/"@ + text::decimal(c.index as nat) + ".xhtml"@
            } by {
            if j < c0.len() {
                assert(cs[j] == c0[j]);
            }
        }
        assert forall|k: int|
            0 <= k < entries.len() && (#[trigger] entries[k]).0 is Some implies cs.map_values(
            |c: ChapterView| c.index as int,
        ).contains(k) by {
            let m = cs.map_values(|c: ChapterView| c.index as int);
            if k < n {
                assert(init[k] == entries[k]);
                let m0 = c0.map_values(|c: ChapterView| c.index as int);
                assert(m0.contains(k));
                let w = choose|w: int| 0 <= w < m0.len() && m0[w] == k;
                assert(cs[w] == c0[w]);
                assert(m[w] == k);
            } else {
                assert(cs.len() == c0.len() + 1);
                assert(m[c0.len() as int] == k);
            }
        }
        assert forall|i: int, j: int| 0 <= i < j < cs.len() implies cs[i].file_name
            != cs[j].file_name by {
            if cs[i].file_name == cs[j].file_name {
                text::lemma_decimal_name_injective(
                    "Text/"@,
                    ".xhtml"@,
                    cs[i].index as nat,
                    cs[j].index as nat,
                );
            }
        }
    }
}

/// The finished table of contents: the open volume goes last.
pub open spec fn closed_navs(st: PlanState) -> Seq<NavView> {
    match st.cur {
        Some(n) => st.navs.push(n),
        None => st.navs,
    }
}

/// A volume's child `ch` is a chapter that comes from a titled entry after
/// position `k`: with an address, the child's title, and stored in
/// `Text/{k2}.xhtml` for its position `k2`.
pub open spec fn child_source(entries: Seq<MenuItem>, k: int, ch: (Seq<char>, Seq<char>)) -> bool {
    exists|k2: int|
        0 <= k < k2 < entries.len() && (#[trigger] entries[k2]).0 is Some && entries[k2].1 == ch.0
            && ch.1 == "Text/"@ + text::decimal(k2 as nat) + ".xhtml"@
}

/// A table-of-contents entry `n` comes from the titled entry at `k`: it has
/// that entry's title; for an entry with an address it is a chapter stored
/// in `Text/{k}.xhtml`, with no children; for one without, it is a volume
/// stored in `{k + 1}.xhtml` whose children all come from later entries.
pub open spec fn nav_source(entries: Seq<MenuItem>, k: int, n: NavView) -> bool {
    &&& 0 <= k < entries.len()
    &&& n.title == entries[k].1
    &&& match entries[k].0 {
        Some(_) => n.file_name == "Text/"@ + text::decimal(k as nat) + ".xhtml"@
            && n.children.len() == 0,
        None => n.file_name == text::decimal((k + 1) as nat) + ".xhtml"@ && forall|c: int|
            0 <= c < n.children.len() ==> #[trigger] child_source(entries, k, n.children[c]),
    }
}

proof fn lemma_child_source_extend(entries: Seq<MenuItem>, k: int, ch: (Seq<char>, Seq<char>))
    requires
        entries.len() > 0,
        child_source(entries.drop_last(), k, ch),
    ensures
        child_source(entries, k, ch),
{
    let init = entries.drop_last();
    assert(child_source(init, k, ch));
    let k2 = choose|k2: int|
        0 <= k < k2 < init.len() && (#[trigger] init[k2]).0 is Some && init[k2].1 == ch.0 && ch.1
            == "Text/"@ + text::decimal(k2 as nat) + ".xhtml"@;
    assert(entries[k2] == init[k2]);
}

proof fn lemma_nav_source_extend(entries: Seq<MenuItem>, k: int, n: NavView)
    requires
        entries.len() > 0,
        nav_source(entries.drop_last(), k, n),
    ensures
        nav_source(entries, k, n),
{
    let init = entries.drop_last();
    assert(entries[k] == init[k]);
    if entries[k].0 is None {
        assert forall|c: int| 0 <= c < n.children.len() implies #[trigger] child_source(
            entries,
            k,
            n.children[c],
        ) by {
            assert(child_source(init, k, n.children[c]));
            lemma_child_source_extend(entries, k, n.children[c]);
        }
    }
}

/// Entries of the table of contents that come from different titled
/// entries are stored in different files.
proof fn lemma_nav_files_differ(entries: Seq<MenuItem>, a: int, b: int, na: NavView, nb: NavView)
    requires
        a < b,
        nav_source(entries, a, na),
        nav_source(entries, b, nb),
    ensures
        na.file_name != nb.file_name,
{
    reveal_strlit("Text/");
    if na.file_name == nb.file_name {
        match (entries[a].0, entries[b].0) {
            (Some(_), Some(_)) => {
                text::lemma_decimal_name_injective("Text/"@, ".xhtml"@, a as nat, b as nat);
            },
            (None, None) => {
                assert(Seq::<char>::empty() + text::decimal((a + 1) as nat) + ".xhtml"@
                    == text::decimal((a + 1) as nat) + ".xhtml"@);
                assert(Seq::<char>::empty() + text::decimal((b + 1) as nat) + ".xhtml"@
                    == text::decimal((b + 1) as nat) + ".xhtml"@);
                text::lemma_decimal_name_injective(
                    Seq::<char>::empty(),
                    ".xhtml"@,
                    (a + 1) as nat,
                    (b + 1) as nat,
                );
            },
            (Some(_), None) => {
                text::lemma_decimal_digits((b + 1) as nat);
                assert(na.file_name[0] == 'T');
                assert(nb.file_name[0] == text::decimal((b + 1) as nat)[0]);
            },
            (None, Some(_)) => {
                text::lemma_decimal_digits((a + 1) as nat);
                assert(nb.file_name[0] == 'T');
                assert(na.file_name[0] == text::decimal((a + 1) as nat)[0]);
            },
        }
    }
}

/// The layout's finished and open table-of-contents entries, with the
/// titled entries they come from, in increasing order.
proof fn lemma_plan_nav_sources(entries: Seq<MenuItem>) -> (r: (Seq<int>, int))
    ensures
        r.0.len() == plan_entries(entries).navs.len(),
        forall|j: int|
            0 <= j < r.0.len() ==> nav_source(entries, #[trigger] r.0[j], plan_entries(entries).navs[j]),
        forall|i: int, j: int| 0 <= i < j < r.0.len() ==> r.0[i] < r.0[j],
        plan_entries(entries).cur matches Some(n) ==> nav_source(entries, r.1, n) && entries[r.1].0 is None && forall|j: int|
            0 <= j < r.0.len() ==> #[trigger] r.0[j] < r.1,
    decreases entries.len(),
{
    if entries.len() == 0 {
        (seq![], 0)
    } else {
        let init = entries.drop_last();
        let (s0, c0) = lemma_plan_nav_sources(init);
        let st = plan_entries(init);
        let m = entries.len() - 1;
        let e = entries.last();
        assert(entries[m] == e);
        assert forall|j: int| 0 <= j < s0.len() implies nav_source(entries, #[trigger] s0[j], st.navs[j]) by {
            lemma_nav_source_extend(entries, s0[j], st.navs[j]);
        }
        match st.cur {
            Some(cn) => {
                lemma_nav_source_extend(entries, c0, cn);
                assert(entries[c0] == init[c0]);
            },
            None => {},
        }
        match e.0 {
            Some(url) => {
                match st.cur {
                    Some(cn) => {
                        let nn = NavView {
                            title: cn.title,
                            file_name: cn.file_name,
                            children: cn.children.push((e.1, chapter_file(m as nat))),
                        };
                        assert(entries[c0].0 is None);
                        assert forall|c: int| 0 <= c < nn.children.len() implies #[trigger] child_source(
                            entries,
                            c0,
                            nn.children[c],
                        ) by {
                            if c < cn.children.len() {
                                assert(nn.children[c] == cn.children[c]);
                                assert(child_source(entries, c0, cn.children[c]));
                            } else {
                                assert(entries[m].0 is Some);
                                assert(nn.children[c] == (e.1, chapter_file(m as nat)));
                            }
                        }
                        assert(nav_source(entries, c0, nn));
                        (s0, c0)
                    },
                    None => {
                        let leaf = NavView {
                            title: e.1,
                            file_name: chapter_file(m as nat),
                            children: seq![],
                        };
                        assert(nav_source(entries, m, leaf));
                        let s = s0.push(m);
                        assert(plan_entries(entries).navs == st.navs.push(leaf));
                        assert forall|j: int| 0 <= j < s.len() implies nav_source(
                            entries,
                            #[trigger] s[j],
                            plan_entries(entries).navs[j],
                        ) by {
                            if j < s0.len() {
                                assert(s[j] == s0[j]);
                            }
                        }
                        (s, c0)
                    },
                }
            },
            None => {
                let vol = NavView { title: e.1, file_name: volume_file(m as nat), children: seq![] };
                assert(nav_source(entries, m, vol));
                match st.cur {
                    Some(cn) => {
                        let s = s0.push(c0);
                        assert forall|j: int| 0 <= j < s.len() implies nav_source(
                            entries,
                            #[trigger] s[j],
                            plan_entries(entries).navs[j],
                        ) by {
                            if j < s0.len() {
                                assert(s[j] == s0[j]);
                            }
                        }
                        (s, m)
                    },
                    None => (s0, m),
                }
            },
        }
    }
}

/// The table of contents of a layout: entry `j` comes from the titled entry
/// at `sources[j]` as `nav_source` says, in increasing order, so no two of
/// its entries are stored in the same file.
pub proof fn lemma_plan_toc(entries: Seq<MenuItem>) -> (sources: Seq<int>)
    ensures
        sources.len() == closed_navs(plan_entries(entries)).len(),
        forall|j: int|
            0 <= j < sources.len() ==> nav_source(
                entries,
                #[trigger] sources[j],
                closed_navs(plan_entries(entries))[j],
            ),
        forall|i: int, j: int| 0 <= i < j < sources.len() ==> sources[i] < sources[j],
        forall|i: int, j: int|
            0 <= i < j < sources.len() ==> closed_navs(plan_entries(entries))[i].file_name
                != closed_navs(plan_entries(entries))[j].file_name,
{
    let (s0, c0) = lemma_plan_nav_sources(entries);
    let st = plan_entries(entries);
    let navs = closed_navs(st);
    let s = match st.cur {
        Some(_) => s0.push(c0),
        None => s0,
    };
    assert forall|j: int| 0 <= j < s.len() implies nav_source(entries, #[trigger] s[j], navs[j]) by {
        if j < s0.len() {
            assert(s[j] == s0[j]);
            assert(navs[j] == st.navs[j]);
        }
    }
    assert forall|i: int, j: int| 0 <= i < j < s.len() implies navs[i].file_name
        != navs[j].file_name by {
        lemma_nav_files_differ(entries, s[i], s[j], navs[i], navs[j]);
    }
    s
}

/// A book's chapters and table of contents.
pub struct BookPlan {
    pub chapters: Vec<ChapterPlan>,
    pub navs: Vec<NavPlan>,
}

/// The views of the chapters of a plan.
pub open spec fn chapter_views(v: Seq<ChapterPlan>) -> Seq<ChapterView> {
    v.map_values(|c: ChapterPlan| c@)
}

/// The views of the table-of-contents entries of a plan.
pub open spec fn nav_views(v: Seq<NavPlan>) -> Seq<NavView> {
    v.map_values(|n: NavPlan| n@)
}

/// Lays out the book that `menu` describes: entries with an empty title are
/// left out; the others are numbered from 0 in order.
pub fn plan_book(menu: &Vec<(Option<String>, String)>) -> (plan: BookPlan)
    ensures
        chapter_views(plan.chapters@) == plan_entries(titled(menu.deep_view())).chapters,
        nav_views(plan.navs@) == closed_navs(plan_entries(titled(menu.deep_view()))),
        forall|j: int|
            0 <= j < plan.chapters.len() ==> #[trigger] plan.chapters@[j].file_name@ == "Text/"@
                + text::decimal(plan.chapters@[j].index as nat) + ".xhtml"@,
        forall|i: int, j: int|
            0 <= i < j < plan.chapters.len() ==> plan.chapters@[i].file_name@
                != plan.chapters@[j].file_name@,        forall|i: int, j: int|
            0 <= i < j < plan.navs.len() ==> plan.navs@[i].file_name@ != plan.navs@[j].file_name@,
{
    let ghost mv = menu.deep_view();
    let mut chapters: Vec<ChapterPlan> = Vec::new();
    let mut navs: Vec<NavPlan> = Vec::new();
    let mut has_cur = false;
    let mut cur_title = String::new();
    let mut cur_file = String::new();
    let mut cur_children: Vec<(String, String)> = Vec::new();
    let mut k: usize = 0;
    let mut j: usize = 0;
    assert(mv.take(0) == Seq::<MenuItem>::empty());
    while j < menu.len()
        invariant
            mv == menu.deep_view(),
            j <= menu.len(),
            k <= j,
            titled(mv.take(j as int)).len() == k,
            ({
                let st = plan_entries(titled(mv.take(j as int)));
                &&& chapter_views(chapters@) == st.chapters
                &&& nav_views(navs@) == st.navs
                &&& st.cur is Some == has_cur
                &&& has_cur ==> st.cur == Some(
                    NavView {
                        title: cur_title@,
                        file_name: cur_file@,
                        children: cur_children.deep_view(),
                    },
                )
            }),
        decreases menu.len() - j,
    {
        let ghost prev = titled(mv.take(j as int));
        let ghost e = mv[j as int];
        assert(mv.take(j + 1).drop_last() == mv.take(j as int));
        assert(mv.take(j + 1).last() == e);
        let title = &menu[j].1;
        assert(e.1 == title@);
        if text::chars_of(title.as_str()).len() > 0 {
            assert(titled(mv.take(j + 1)) == prev.push(e));
            assert(titled(mv.take(j + 1)).drop_last() == prev);
            match &menu[j].0 {
                Some(url) => {
                    assert(e.0 == Some(url@));
                    let mut file = String::from_str("Text/");
                    file.append(usize_to_decimal(k).as_str());
                    file.append(".xhtml");
                    let ghost ch = ChapterView {
                        index: k,
                        url: url@,
                        title: title@,
                        file_name: chapter_file(k as nat),
                    };
                    let ghost before = chapters@;
                    chapters.push(
                        ChapterPlan {
                            index: k,
                            url: url.clone(),
                            title: title.clone(),
                            file_name: file.clone(),
                        },
                    );
                    assert(chapter_views(chapters@) == chapter_views(before).push(ch));
                    if has_cur {
                        let ghost cb = cur_children.deep_view();
                        cur_children.push((title.clone(), file));
                        assert(cur_children.deep_view() == cb.push((title@, chapter_file(k as nat))));
                    } else {
                        let ghost nb = navs@;
                        let leaf = NavPlan { title: title.clone(), file_name: file, children: Vec::new() };
                        assert(leaf.children.deep_view() == Seq::<(Seq<char>, Seq<char>)>::empty());
                        navs.push(leaf);
                        assert(nav_views(navs@) == nav_views(nb).push(
                            NavView { title: title@, file_name: chapter_file(k as nat), children: seq![] },
                        ));
                    }
                },
                None => {
                    assert(e.0 is None);
                    if has_cur {
                        let ghost nb = navs@;
                        let mut children: Vec<(String, String)> = Vec::new();
                        std::mem::swap(&mut children, &mut cur_children);
                        let done = NavPlan { title: cur_title.clone(), file_name: cur_file.clone(), children };
                        navs.push(done);
                        assert(nav_views(navs@) == nav_views(nb).push(done@));
                    }
                    has_cur = true;
                    cur_title = title.clone();
                    let mut file = usize_to_decimal(k + 1);
                    file.append(".xhtml");
                    cur_file = file;
                    cur_children = Vec::new();
                    assert(cur_children.deep_view() == Seq::<(Seq<char>, Seq<char>)>::empty());
                },
            }
            k = k + 1;
        } else {
            assert(titled(mv.take(j + 1)) == prev);
        }
        j = j + 1;
    }
    assert(mv.take(menu.len() as int) == mv);
    if has_cur {
        let ghost nb = navs@;
        let done = NavPlan { title: cur_title, file_name: cur_file, children: cur_children };
        navs.push(done);
        assert(nav_views(navs@) == nav_views(nb).push(done@));
    }
    proof {
        lemma_plan_chapters(titled(mv));
        let cs = plan_entries(titled(mv)).chapters;
        assert forall|j: int| 0 <= j < chapters.len() implies #[trigger] chapters@[j]@ == cs[j] by {
            assert(chapter_views(chapters@)[j] == chapters@[j]@);
        }
        assert forall|j: int| 0 <= j < chapters.len() implies #[trigger] chapters@[j].file_name@
            == "Text/"@ + text::decimal(chapters@[j].index as nat) + ".xhtml"@ by {
            assert(chapters@[j]@ == cs[j]);
        }
        assert forall|i: int, j: int| 0 <= i < j < chapters.len() implies chapters@[i].file_name@
            != chapters@[j].file_name@ by {
            assert(chapters@[i]@ == cs[i]);
            assert(chapters@[j]@ == cs[j]);
        }
        let _ = lemma_plan_toc(titled(mv));
        assert forall|i: int, j: int| 0 <= i < j < navs.len() implies navs@[i].file_name@
            != navs@[j].file_name@ by {
            assert(nav_views(navs@)[i] == navs@[i]@);
            assert(nav_views(navs@)[j] == navs@[j]@);
        }
    }
    BookPlan { chapters, navs }
}


/// The cache directory of a book: `temp/{id}`.
pub fn book_temp_dir(id: &str) -> (r: String)
    ensures
        r@ == "temp/"@ + id@,
{
    let mut r = String::from_str("temp/");
    r.append(id);
    r
}

/// The image cache directory of a book: `temp/{id}/Images`.
pub fn images_temp_dir(id: &str) -> (r: String)
    ensures
        r@ == "temp/"@ + id@ + "/"@ + "Images"@,
{
    let mut r = book_temp_dir(id);
    r.append("/");
    r.append(ImgSrc::dir_name());
    r
}

/// The cached cover of a book: `temp/{id}/Images/cover.jpg`.
pub fn cover_cache_path(id: &str) -> (r: String)
    ensures
        r@ == "temp/"@ + id@ + "/Images/cover.jpg"@,
{
    let mut r = book_temp_dir(id);
    r.append("/Images/cover.jpg");
    r
}

/// The cached file `temp/{id}/{hash of key}{suffix}`.
pub fn keyed_cache_path(id: &str, key: &str, suffix: &str) -> (r: String)
    ensures
        r@ == "temp/"@ + id@ + "/"@ + decimal_u64(default_hash(key@)) + suffix@,
{
    let hash = hash_url(key);
    let mut r = book_temp_dir(id);
    r.append("/");
    r.append(hash.as_str());
    r.append(suffix);
    r
}

/// The cache name of chapter `index` with address `url`, without its
/// ending: `temp/{id}/{index:03}-{hash}`.
pub open spec fn chapter_cache_stem(id: Seq<char>, index: nat, url: Seq<char>) -> Seq<char> {
    "temp/"@ + id + "/"@ + text::decimal_padded(index, 3) + "-"@ + decimal_u64(default_hash(url))
}

proof fn lemma_chapter_stem_index(id: Seq<char>, i: nat, a: Seq<char>, j: nat, b: Seq<char>)
    requires
        chapter_cache_stem(id, i, a) == chapter_cache_stem(id, j, b),
    ensures
        i == j,
{
    reveal_strlit("-");
    let pre = "temp/"@ + id + "/"@;
    let x = text::decimal_padded(i, 3);
    let y = text::decimal_padded(j, 3);
    let s = chapter_cache_stem(id, i, a);
    let t = chapter_cache_stem(id, j, b);
    let sx = x + seq!['-'] + decimal_u64(default_hash(a));
    let ty = y + seq!['-'] + decimal_u64(default_hash(b));
    assert(s == pre + sx);
    assert(t == pre + ty);
    assert(sx == s.skip(pre.len() as int));
    assert(ty == t.skip(pre.len() as int));
    text::lemma_decimal_padded_value(i, 3);
    text::lemma_decimal_padded_value(j, 3);
    text::lemma_digit_runs_equal(x, y, '-', decimal_u64(default_hash(a)), decimal_u64(default_hash(b)));
}

/// Different chapters are cached in different files, whatever their
/// addresses, and a chapter's text and image list are never the same file.
pub proof fn lemma_chapter_cache_distinct(id: Seq<char>, i: nat, a: Seq<char>, j: nat, b: Seq<char>)
    ensures
        i != j ==> chapter_cache_stem(id, i, a) + ".h"@ != chapter_cache_stem(id, j, b) + ".h"@,
        i != j ==> chapter_cache_stem(id, i, a) + ".s"@ != chapter_cache_stem(id, j, b) + ".s"@,
        chapter_cache_stem(id, i, a) + ".h"@ != chapter_cache_stem(id, j, b) + ".s"@,
{
    reveal_strlit(".h");
    reveal_strlit(".s");
    let s = chapter_cache_stem(id, i, a);
    let t = chapter_cache_stem(id, j, b);
    if s + ".h"@ == t + ".h"@ {
        assert(s.len() == t.len()) by {
            assert((s + ".h"@).len() == (t + ".h"@).len());
        }
        assert(s == (s + ".h"@).subrange(0, s.len() as int));
        assert(t == (t + ".h"@).subrange(0, t.len() as int));
        lemma_chapter_stem_index(id, i, a, j, b);
    }
    if s + ".s"@ == t + ".s"@ {
        assert(s.len() == t.len()) by {
            assert((s + ".s"@).len() == (t + ".s"@).len());
        }
        assert(s == (s + ".s"@).subrange(0, s.len() as int));
        assert(t == (t + ".s"@).subrange(0, t.len() as int));
        lemma_chapter_stem_index(id, i, a, j, b);
    }
    if s + ".h"@ == t + ".s"@ {
        let u = s + ".h"@;
        assert(u[u.len() - 1] == 'h');
        assert((t + ".s"@)[u.len() - 1] == 's');
    }
}

/// Where chapter `index` with address `url` is cached: the text in
/// `temp/{id}/{index:03}-{hash}.h`, its image addresses in the same name
/// ending in `.s`.
pub fn chapter_cache_paths(id: &str, index: usize, url: &str) -> (r: (String, String))
    ensures
        r.0@ == chapter_cache_stem(id@, index as nat, url@) + ".h"@,
        r.1@ == chapter_cache_stem(id@, index as nat, url@) + ".s"@,
{
    let hash = hash_url(url);
    let mut stem = book_temp_dir(id);
    stem.append("/");
    stem.append(usize_to_decimal3(index).as_str());
    stem.append("-");
    stem.append(hash.as_str());
    let mut html = stem.clone();
    html.append(".h");
    let mut src = stem;
    src.append(".s");
    (html, src)
}

/// The names that chapter `index`'s images get in the book's pages:
/// `../Images/{index}-`.
pub fn content_img_prefix(index: usize) -> (r: String)
    ensures
        r@ == "../"@ + "Images"@ + "/"@ + text::decimal(index as nat) + "-"@,
{
    let mut r = String::from_str("../");
    r.append(ImgSrc::dir_name());
    r.append("/");
    r.append(usize_to_decimal(index).as_str());
    r.append("-");
    r
}

/// The prefix of the names of chapter `index`'s image files: `{index}-`.
pub fn img_file_prefix(index: usize) -> (r: String)
    ensures
        r@ == text::decimal(index as nat) + "-"@,
{
    let mut r = usize_to_decimal(index);
    r.append("-");
    r
}

/// Where the finished book is written: `out/{title}.epub`.
pub fn epub_out_path(title: &str) -> (r: String)
    ensures
        r@ == "out/"@ + title@ + ".epub"@,
{
    let mut r = String::from_str("out/");
    r.append(title);
    r.append(".epub");
    r
}

/// The address without `http://` and `https://`.
pub open spec fn strip_scheme_spec(url: Seq<char>) -> Seq<char> {
    text::replace(text::replace(url, "http://"@, ""@), "https://"@, ""@)
}

/// The address with every `http://` and then every `https://` removed.
pub fn strip_scheme(url: &str) -> (r: String)
    ensures
        r@ == strip_scheme_spec(url@),
{
    proof {
        reveal_strlit("http://");
        reveal_strlit("https://");
        reveal_strlit("");
    }
    let a = replace_str(url, "http://", "");
    replace_str(a.as_str(), "https://", "")
}

/// Where a book is stored remotely:
/// `epub/data/{date}/{url without scheme}/{id}/{title}.epub`.
pub fn remote_epub_path(date: &str, url: &str, id: &str, title: &str) -> (r: String)
    ensures
        r@ == "epub/data/"@ + date@ + "/"@ + strip_scheme_spec(url@) + "/"@ + id@ + "/"@ + title@
            + ".epub"@,
{
    let mut r = String::from_str("epub/data/");
    r.append(date);
    r.append("/");
    r.append(strip_scheme(url).as_str());
    r.append("/");
    r.append(id);
    r.append("/");
    r.append(title);
    r.append(".epub");
    r
}

/// Where a book's cache archive is stored remotely:
/// `epub/data/cache/{url without scheme}/{id}.zip`.
pub fn remote_cache_path(url: &str, id: &str) -> (r: String)
    ensures
        r@ == "epub/data/cache/"@ + strip_scheme_spec(url@) + "/"@ + id@ + ".zip"@,
{
    let mut r = String::from_str("epub/data/cache/");
    r.append(strip_scheme(url).as_str());
    r.append("/");
    r.append(id);
    r.append(".zip");
    r
}

} // verus!

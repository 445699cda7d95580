//! Comic and chapter records from the API, and what the downloader derives
//! from them: titles, chapter titles, cover URL, image counts, and which
//! chapters to fetch.
use vstd::prelude::*;

use crate::text::{
    append_chars, chars_to_string, filename_filter, i64_decimal, parse_i64, signed_decimal,
    spec_filename_filter, spec_parse_i64, str_chars, u64_decimal, decimal,
};

verus! {

/// One entry of a comic's series (chapter) list.
#[derive(Debug)]
pub struct JmSeries {
    pub id: String,
    pub name: String,
}

/// A comic (album) as returned by the album endpoint.
#[derive(Debug)]
pub struct JmComicResp {
    pub id: i64,
    pub name: String,
    pub series: Vec<JmSeries>,
}

/// A chapter as returned by the chapter endpoint.
#[derive(Debug)]
pub struct JmChapterResp {
    pub id: i64,
    pub name: String,
    pub images: Vec<String>,
    pub series_id: String,
}

/// A comic with the chapters to download, and the chapter the input named.
#[derive(Debug)]
pub struct JmComicDetail {
    pub comic: JmComicResp,
    pub selected_chapter_id: Option<i64>,
    pub chapters: Vec<JmChapterResp>,
}

/// What the downloader reports about a comic before downloading it.
#[derive(Debug)]
pub struct JmComicSummary {
    pub id: i64,
    pub title: String,
    pub cover: String,
    pub image_count: i64,
}

// ---------------------------------------------------------------------------
// Chapter titles
// ---------------------------------------------------------------------------

/// The first series entry, from index `i` on, whose id parses to `chapter_id`.
pub open spec fn series_position(series: Seq<JmSeries>, chapter_id: i64, i: int) -> Option<int>
    decreases series.len() - i,
{
    if i < 0 || i >= series.len() {
        None
    } else if spec_parse_i64(series[i].id@) == Some(chapter_id) {
        Some(i)
    } else {
        series_position(series, chapter_id, i + 1)
    }
}

/// `第<n>话`, the generic title of the `n`-th chapter.
pub open spec fn numbered_title(n: int) -> Seq<char> {
    "第"@ + signed_decimal(n) + "话"@
}

/// The title of a chapter: its position in the comic's series list (and the
/// series name, if any) when listed there; otherwise its own name, or the
/// generic title for `fallback_order` when it has none.
pub open spec fn spec_chapter_title(
    comic: JmComicResp,
    chapter: JmChapterResp,
    fallback_order: i64,
) -> Seq<char> {
    match series_position(comic.series@, chapter.id, 0) {
        Some(idx) => {
            let name = comic.series@[idx].name@;
            if name.len() == 0 {
                numbered_title(idx + 1)
            } else {
                numbered_title(idx + 1) + " "@ + name
            }
        },
        None => if chapter.name@.len() == 0 {
            numbered_title(fallback_order as int)
        } else {
            chapter.name@
        },
    }
}

/// The position of a chapter in a comic's series list.
fn find_series_position(series: &Vec<JmSeries>, chapter_id: i64) -> (res: Option<usize>)
    ensures
        match res {
            Some(k) => series_position(series@, chapter_id, 0) == Some(k as int) && k
                < series@.len(),
            None => series_position(series@, chapter_id, 0) is None,
        },
{
    let mut i: usize = 0;
    while i < series.len()
        invariant
            i <= series@.len(),
            series_position(series@, chapter_id, 0) == series_position(series@, chapter_id, i as int),
        decreases series.len() - i,
    {
        if parse_i64(&str_chars(series[i].id.as_str())) == Some(chapter_id) {
            return Some(i);
        }
        i += 1;
    }
    None
}

/// `第<n>话` as characters.
fn numbered_title_chars(n: &[char]) -> (res: Vec<char>)
    ensures
        res@ == "第"@ + n@ + "话"@,
{
    let mut t = str_chars("第");
    append_chars(&mut t, n);
    append_chars(&mut t, &str_chars("话"));
    t
}

impl JmComicDetail {
    /// The title of `chapter` within this comic.
    pub fn chapter_title(&self, chapter: &JmChapterResp, fallback_order: i64) -> (res: String)
        ensures
            res@ == spec_chapter_title(self.comic, *chapter, fallback_order),
    {
        match find_series_position(&self.comic.series, chapter.id) {
            Some(idx) => {
                let count = self.comic.series.len();
                assert(idx < count);
                let order = u64_decimal(idx as u64 + 1);
                proof {
                    assert(signed_decimal(idx + 1) == decimal((idx + 1) as nat));
                }
                let mut t = numbered_title_chars(&order);
                let name = str_chars(self.comic.series[idx].name.as_str());
                if name.len() > 0 {
                    append_chars(&mut t, &str_chars(" "));
                    append_chars(&mut t, &name);
                }
                chars_to_string(&t)
            },
            None => {
                if chapter.name.as_str().is_empty() {
                    chars_to_string(&numbered_title_chars(&i64_decimal(fallback_order)))
                } else {
                    chars_to_string(&str_chars(chapter.name.as_str()))
                }
            },
        }
    }

    /// The comic's title (with the chapter's title when the input named a
    /// chapter), made safe as a file name.
    pub fn title(&self) -> (res: String)
        ensures
            res@ == spec_detail_title(*self),
    {
        match self.selected_chapter_id {
            Some(chapter_id) => {
                let chapter_title = match find_chapter(&self.chapters, chapter_id) {
                    Some(k) => str_chars(self.chapter_title(&self.chapters[k], 1).as_str()),
                    None => {
                        let mut t = str_chars("章节 ");
                        append_chars(&mut t, &i64_decimal(chapter_id));
                        t
                    },
                };
                let mut full = str_chars(self.comic.name.as_str());
                append_chars(&mut full, &str_chars(" - "));
                append_chars(&mut full, &chapter_title);
                chars_to_string(&filename_filter(&full))
            },
            None => chars_to_string(&filename_filter(&str_chars(self.comic.name.as_str()))),
        }
    }

    /// The URL of the comic's cover image.
    pub fn cover(&self) -> (res: String)
        ensures
            res@ == spec_cover_url(self.comic.id),
    {
        let mut t = str_chars("https://cdn-msp3.18comic.vip/media/albums/");
        append_chars(&mut t, &i64_decimal(self.comic.id));
        append_chars(&mut t, &str_chars(".jpg"));
        chars_to_string(&t)
    }

    /// The number of images over all chapters.
    pub fn image_count(&self) -> (n: i64)
        requires
            total_images(self.chapters@) <= i64::MAX,
        ensures
            n == total_images(self.chapters@),
    {
        let mut n: i64 = 0;
        let mut i: usize = 0;
        while i < self.chapters.len()
            invariant
                i <= self.chapters@.len(),
                n == total_images(self.chapters@.subrange(0, i as int)),
                total_images(self.chapters@) <= i64::MAX,
            decreases self.chapters.len() - i,
        {
            proof {
                lemma_total_images_push(self.chapters@.subrange(0, i as int), self.chapters@[i as int]);
                assert(self.chapters@.subrange(0, i as int).push(self.chapters@[i as int])
                    =~= self.chapters@.subrange(0, i + 1));
                lemma_total_images_prefix(self.chapters@, i + 1);
                lemma_total_images_nonneg(self.chapters@.subrange(0, i as int));
            }
            assert(self.chapters[i as int].images@.len() <= i64::MAX);
            n = n + self.chapters[i].images.len() as i64;
            i += 1;
        }
        proof {
            assert(self.chapters@.subrange(0, self.chapters@.len() as int) =~= self.chapters@);
        }
        n
    }

    /// The summary shown before a download.
    pub fn summary(&self) -> (s: JmComicSummary)
        requires
            total_images(self.chapters@) <= i64::MAX,
        ensures
            s.id == self.comic.id,
            s.title@ == spec_detail_title(*self),
            s.cover@ == spec_cover_url(self.comic.id),
            s.image_count == total_images(self.chapters@),
    {
        JmComicSummary {
            id: self.comic.id,
            title: self.title(),
            cover: self.cover(),
            image_count: self.image_count(),
        }
    }
}

/// The first chapter with the given id, from index `i` on.
pub open spec fn chapter_with_id(chapters: Seq<JmChapterResp>, id: i64, i: int) -> Option<int>
    decreases chapters.len() - i,
{
    if i < 0 || i >= chapters.len() {
        None
    } else if chapters[i].id == id {
        Some(i)
    } else {
        chapter_with_id(chapters, id, i + 1)
    }
}

/// The index of the first chapter with the given id.
fn find_chapter(chapters: &Vec<JmChapterResp>, id: i64) -> (res: Option<usize>)
    ensures
        match res {
            Some(k) => chapter_with_id(chapters@, id, 0) == Some(k as int) && k < chapters@.len(),
            None => chapter_with_id(chapters@, id, 0) is None,
        },
{
    let mut i: usize = 0;
    while i < chapters.len()
        invariant
            i <= chapters@.len(),
            chapter_with_id(chapters@, id, 0) == chapter_with_id(chapters@, id, i as int),
        decreases chapters.len() - i,
    {
        if chapters[i].id == id {
            return Some(i);
        }
        i += 1;
    }
    None
}

/// The title of a comic detail: `<comic> - <chapter title>` when a chapter
/// was named (`章节 <id>` if it is not among the fetched chapters), else the
/// comic's name; either made safe as a file name.
pub open spec fn spec_detail_title(d: JmComicDetail) -> Seq<char> {
    match d.selected_chapter_id {
        Some(cid) => {
            let ct = match chapter_with_id(d.chapters@, cid, 0) {
                Some(k) => spec_chapter_title(d.comic, d.chapters@[k], 1),
                None => "章节 "@ + signed_decimal(cid as int),
            };
            spec_filename_filter(d.comic.name@ + " - "@ + ct)
        },
        None => spec_filename_filter(d.comic.name@),
    }
}

/// The cover URL of a comic.
pub open spec fn spec_cover_url(id: i64) -> Seq<char> {
    "https://cdn-msp3.18comic.vip/media/albums/"@ + signed_decimal(id as int) + ".jpg"@
}

/// The number of images over a list of chapters.
pub open spec fn total_images(chapters: Seq<JmChapterResp>) -> int
    decreases chapters.len(),
{
    if chapters.len() == 0 {
        0
    } else {
        total_images(chapters.drop_last()) + chapters.last().images@.len()
    }
}

/// Lemma: the image count of a list grown by one chapter.
pub proof fn lemma_total_images_push(chapters: Seq<JmChapterResp>, c: JmChapterResp)
    ensures
        total_images(chapters.push(c)) == total_images(chapters) + c.images@.len(),
{
    assert(chapters.push(c).drop_last() =~= chapters);
}

/// Lemma: a prefix of a chapter list holds no more images than the list.
pub proof fn lemma_total_images_prefix(chapters: Seq<JmChapterResp>, k: int)
    requires
        0 <= k <= chapters.len(),
    ensures
        0 <= total_images(chapters.subrange(0, k)) <= total_images(chapters),
    decreases chapters.len(),
{
    if k == chapters.len() {
        assert(chapters.subrange(0, k) =~= chapters);
        lemma_total_images_nonneg(chapters);
    } else {
        lemma_total_images_prefix(chapters.drop_last(), k);
        assert(chapters.drop_last().subrange(0, k) =~= chapters.subrange(0, k));
    }
}

/// Lemma: image counts are not negative.
pub proof fn lemma_total_images_nonneg(chapters: Seq<JmChapterResp>)
    ensures
        total_images(chapters) >= 0,
    decreases chapters.len(),
{
    if chapters.len() > 0 {
        lemma_total_images_nonneg(chapters.drop_last());
    }
}

// ---------------------------------------------------------------------------
// Which chapters to fetch
// ---------------------------------------------------------------------------

/// The ids of the series entries from index `i` on that parse as `i64`.
pub open spec fn parsed_series_ids(series: Seq<JmSeries>, i: int) -> Seq<i64>
    decreases series.len() - i,
{
    if i < 0 || i >= series.len() {
        Seq::empty()
    } else {
        match spec_parse_i64(series[i].id@) {
            Some(id) => seq![id] + parsed_series_ids(series, i + 1),
            None => parsed_series_ids(series, i + 1),
        }
    }
}

/// The chapters to fetch: the named chapter; else every series entry with a
/// numeric id; else the comic itself as its only chapter.
pub open spec fn spec_selected_chapter_ids(comic: JmComicResp, selected: Option<i64>) -> Seq<i64> {
    match selected {
        Some(c) => seq![c],
        None => {
            let ids = parsed_series_ids(comic.series@, 0);
            if ids.len() == 0 {
                seq![comic.id]
            } else {
                ids
            }
        },
    }
}

/// Lemma: collecting ids from index `i` extends those collected before it.
proof fn lemma_parsed_series_ids_step(series: Seq<JmSeries>, i: int)
    requires
        0 <= i < series.len(),
    ensures
        parsed_series_ids(series, i) == match spec_parse_i64(series[i].id@) {
            Some(id) => seq![id] + parsed_series_ids(series, i + 1),
            None => parsed_series_ids(series, i + 1),
        },
{
}

/// The chapter ids to fetch for a comic.
pub fn selected_chapter_ids(comic: &JmComicResp, selected_chapter_id: Option<i64>) -> (ids: Vec<
    i64,
>)
    ensures
        ids@ == spec_selected_chapter_ids(*comic, selected_chapter_id),
{
    if let Some(chapter_id) = selected_chapter_id {
        let mut v: Vec<i64> = Vec::new();
        v.push(chapter_id);
        assert(v@ =~= seq![chapter_id]);
        return v;
    }
    let mut ids: Vec<i64> = Vec::new();
    let mut i: usize = 0;
    while i < comic.series.len()
        invariant
            i <= comic.series@.len(),
            ids@ + parsed_series_ids(comic.series@, i as int) == parsed_series_ids(
                comic.series@,
                0,
            ),
        decreases comic.series.len() - i,
    {
        proof {
            lemma_parsed_series_ids_step(comic.series@, i as int);
        }
        match parse_i64(&str_chars(comic.series[i].id.as_str())) {
            Some(id) => {
                proof {
                    assert(ids@.push(id) + parsed_series_ids(comic.series@, i + 1) =~= ids@ + (seq![
                        id,
                    ] + parsed_series_ids(comic.series@, i + 1)));
                }
                ids.push(id);
            },
            None => {},
        }
        i += 1;
    }
    proof {
        assert(ids@ + Seq::<i64>::empty() =~= ids@);
    }
    if ids.len() == 0 {
        let mut v: Vec<i64> = Vec::new();
        v.push(comic.id);
        assert(v@ =~= seq![comic.id]);
        v
    } else {
        ids
    }
}

/// The album of a chapter: its series id when numeric, else the chapter id
/// itself.
pub fn album_id_of_chapter(series_id: &str, chapter_id: i64) -> (id: i64)
    ensures
        id == match spec_parse_i64(series_id@) {
            Some(v) => v,
            None => chapter_id,
        },
{
    match parse_i64(&str_chars(series_id)) {
        Some(v) => v,
        None => chapter_id,
    }
}

/// The detail of an album input: the comic and all its fetched chapters.
pub fn album_detail(comic: JmComicResp, chapters: Vec<JmChapterResp>) -> (d: JmComicDetail)
    ensures
        d.comic == comic,
        d.selected_chapter_id is None,
        d.chapters == chapters,
{
    JmComicDetail { comic, selected_chapter_id: None, chapters }
}

/// The detail of a chapter input: the comic and that one chapter.
pub fn chapter_detail(comic: JmComicResp, chapter_id: i64, chapter: JmChapterResp) -> (d:
    JmComicDetail)
    ensures
        d.comic == comic,
        d.selected_chapter_id == Some(chapter_id),
        d.chapters@ == seq![chapter],
{
    let mut chapters: Vec<JmChapterResp> = Vec::new();
    chapters.push(chapter);
    assert(chapters@ =~= seq![chapter]);
    JmComicDetail { comic, selected_chapter_id: Some(chapter_id), chapters }
}

/// Law: there is always at least one chapter to fetch, and a named chapter
/// is the only one.
pub proof fn lemma_selected_chapters_nonempty(comic: JmComicResp, selected: Option<i64>)
    ensures
        spec_selected_chapter_ids(comic, selected).len() >= 1,
        selected matches Some(c) ==> spec_selected_chapter_ids(comic, selected) == seq![c],
{
}

} // verus!

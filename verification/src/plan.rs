//! The download plan of a comic (directories, chapters, pages), its
//! metadata, which leftover files a resumed download removes, and what a
//! download reports when it succeeds or fails.
use vstd::prelude::*;

use crate::comic::{spec_chapter_title, spec_cover_url, spec_detail_title, JmComicDetail};
use crate::image::DownloadFormat;
use crate::naming::{
    build_download_dir_name, build_image_plan, is_image_plan, spec_download_dir_name,
    spec_has_image_plan, spec_page_block_num, spec_page_file_name, spec_path_file_stem,
    JmImagePlan,
};
use crate::text::{
    append_chars, chars_to_string, decimal, filename_filter, padded_decimal, signed_decimal,
    spec_filename_filter, str_chars, zero_pad,
};

verus! {

// ---------------------------------------------------------------------------
// Options
// ---------------------------------------------------------------------------

/// How a download is carried out.
#[derive(Debug)]
pub struct JmDownloadOptions {
    /// The directory the comic's directory and archive are created in.
    pub download_dir: String,
    /// The format pages are saved in.
    pub format: DownloadFormat,
    /// How many pages are downloaded at once (at least one).
    pub img_concurrency: usize,
    /// Seconds to wait after each page.
    pub img_interval_sec: u64,
    /// How many times a failed page is retried.
    pub img_retry_count: usize,
}

/// The number of pages downloaded at once: the option, but at least one.
pub fn effective_concurrency(options: &JmDownloadOptions) -> (n: usize)
    ensures
        n == if options.img_concurrency >= 1 {
            options.img_concurrency
        } else {
            1
        },
        n >= 1,
{
    if options.img_concurrency >= 1 {
        options.img_concurrency
    } else {
        1
    }
}

/// After failed attempt number `attempt` (from 0) of a page, the seconds to
/// wait before the next attempt; `None` when no attempt is left.
pub fn retry_delay_secs(attempt: usize, retry_count: usize) -> (res: Option<u64>)
    ensures
        attempt < retry_count ==> res == Some((attempt + 1) as u64),
        attempt >= retry_count ==> res is None,
{
    if attempt < retry_count {
        assert(usize::MAX <= u64::MAX);
        Some(1 + attempt as u64)
    } else {
        None
    }
}

/// What to do with an image response.
#[derive(Debug, Clone, Copy, PartialEq, Eq, Structural)]
pub enum ImageFetchStep {
    /// The status is not `200 OK`: the page fails.
    Reject,
    /// The body is empty: ask again once, with the time as a query.
    Refetch,
    /// Use the body.
    Accept,
}

/// What to do with an image response of `status` whose body has `body_len`
/// bytes, on the first request or on the repeated one.
pub fn image_fetch_step(status: u16, body_len: usize, repeated: bool) -> (step: ImageFetchStep)
    ensures
        status != 200 ==> step == ImageFetchStep::Reject,
        status == 200 && body_len == 0 && !repeated ==> step == ImageFetchStep::Refetch,
        status == 200 && (body_len > 0 || repeated) ==> step == ImageFetchStep::Accept,
{
    if status != 200 {
        ImageFetchStep::Reject
    } else if body_len == 0 && !repeated {
        ImageFetchStep::Refetch
    } else {
        ImageFetchStep::Accept
    }
}

// ---------------------------------------------------------------------------
// Chapter plans
// ---------------------------------------------------------------------------

/// How one chapter is downloaded.
#[derive(Debug)]
pub struct JmChapterPlan {
    pub chapter_id: i64,
    pub chapter_title: String,
    /// The chapter's 1-based position in the download.
    pub order: i64,
    /// The chapter's directory name inside the comic's directory.
    pub dir_name: String,
    pub images: Vec<JmImagePlan>,
}

/// The indices, below `n`, of the pages that have a plan.
pub open spec fn planned_indices(images: Seq<String>, n: int) -> Seq<nat>
    decreases n,
{
    if n <= 0 {
        Seq::empty()
    } else if spec_has_image_plan(images[n - 1]@) {
        planned_indices(images, n - 1).push((n - 1) as nat)
    } else {
        planned_indices(images, n - 1)
    }
}

/// The directory name of a chapter: its order padded to three digits, a
/// space and its title, made safe as a file name.
pub open spec fn spec_chapter_dir_name(order: i64, title: Seq<char>) -> Seq<char> {
    spec_filename_filter(zero_pad(signed_decimal(order as int), 3) + " "@ + title)
}

/// Whether `p` plans the chapter at `index` of `detail`, with the chapter's
/// scramble id and the output format.
pub open spec fn is_chapter_plan(
    p: JmChapterPlan,
    detail: JmComicDetail,
    index: int,
    scramble_id: i64,
    format: DownloadFormat,
) -> bool {
    let chapter = detail.chapters@[index];
    let planned = planned_indices(chapter.images@, chapter.images@.len() as int);
    &&& p.chapter_id == chapter.id
    &&& p.order == index + 1
    &&& p.chapter_title@ == spec_chapter_title(detail.comic, chapter, (index + 1) as i64)
    &&& p.dir_name@ == spec_chapter_dir_name(p.order, p.chapter_title@)
    &&& p.images@.len() == planned.len()
    &&& forall|k: int|
        0 <= k < planned.len() ==> is_image_plan(
            #[trigger] p.images@[k],
            chapter.id,
            scramble_id,
            planned[k],
            chapter.images@[planned[k] as int]@,
            format,
        )
}

/// Lemma (pages of their own chapter): in the plan of the chapter at
/// `index`, page `k` is fetched from
/// `https://cdn-msp2.jmapiproxy2.cc/media/photos/<chapter id>/<file>` and its
/// block count is computed from that chapter's id, whatever the album's id is;
/// its file name is numbered by the page's position among all the chapter's
/// pages, those without a plan included.
pub proof fn lemma_chapter_pages_use_chapter_id(
    p: JmChapterPlan,
    detail: JmComicDetail,
    index: int,
    scramble_id: i64,
    format: DownloadFormat,
    k: int,
)
    requires
        0 <= index < detail.chapters@.len(),
        is_chapter_plan(p, detail, index, scramble_id, format),
        0 <= k < p.images@.len(),
    ensures
        ({
            let chapter = detail.chapters@[index];
            let name = chapter.images@[planned_indices(chapter.images@, chapter.images@.len() as int)[k] as int]@;
            &&& p.images@[k].url@ == "https://cdn-msp2.jmapiproxy2.cc/media/photos/"@ + signed_decimal(
                chapter.id as int,
            ) + "/"@ + name
            &&& p.images@[k].block_num == spec_page_block_num(
                scramble_id,
                chapter.id,
                name,
                spec_path_file_stem(name)->0,
            )
            &&& p.images@[k].file_name@ == spec_page_file_name(
                planned_indices(chapter.images@, chapter.images@.len() as int)[k],
                name,
                format,
            )
        }),
{
    assert(is_image_plan(
        p.images@[k],
        detail.chapters@[index].id,
        scramble_id,
        planned_indices(detail.chapters@[index].images@, detail.chapters@[index].images@.len() as int)[k],
        detail.chapters@[index].images@[planned_indices(
            detail.chapters@[index].images@,
            detail.chapters@[index].images@.len() as int,
        )[k] as int]@,
        format,
    ));
}

/// The plan of the chapter at `index` of `detail`: its order and title, its
/// directory name, and a plan for every page that has one.
pub fn build_chapter_plan(
    detail: &JmComicDetail,
    index: usize,
    scramble_id: i64,
    format: DownloadFormat,
) -> (p: JmChapterPlan)
    requires
        index < detail.chapters@.len(),
        index < i64::MAX,
    ensures
        is_chapter_plan(p, *detail, index as int, scramble_id, format),
        forall|k: int|
            #![trigger p.images@[k]]
            0 <= k < p.images@.len() ==> ({
                let chapter = detail.chapters@[index as int];
                let name = chapter.images@[planned_indices(
                    chapter.images@,
                    chapter.images@.len() as int,
                )[k] as int]@;
                &&& p.images@[k].url@ == "https://cdn-msp2.jmapiproxy2.cc/media/photos/"@
                    + signed_decimal(chapter.id as int) + "/"@ + name
                &&& p.images@[k].block_num == spec_page_block_num(
                    scramble_id,
                    chapter.id,
                    name,
                    spec_path_file_stem(name)->0,
                )
                &&& p.images@[k].file_name@ == spec_page_file_name(
                    planned_indices(chapter.images@, chapter.images@.len() as int)[k],
                    name,
                    format,
                )
            }),
{
    let chapter = &detail.chapters[index];
    let order: i64 = index as i64 + 1;
    let chapter_title = detail.chapter_title(chapter, order);
    let mut dir_text = padded_decimal(order as u64, 3);
    proof {
        assert(signed_decimal(order as int) == decimal(order as nat));
    }
    append_chars(&mut dir_text, &str_chars(" "));
    append_chars(&mut dir_text, &str_chars(chapter_title.as_str()));
    let dir_name = chars_to_string(&filename_filter(&dir_text));
    let mut images: Vec<JmImagePlan> = Vec::new();
    let mut i: usize = 0;
    let ghost names = chapter.images@;
    while i < chapter.images.len()
        invariant
            names == chapter.images@,
            i <= names.len(),
            images@.len() == planned_indices(names, i as int).len(),
            forall|k: int|
                0 <= k < images@.len() ==> is_image_plan(
                    #[trigger] images@[k],
                    chapter.id,
                    scramble_id,
                    planned_indices(names, i as int)[k],
                    names[planned_indices(names, i as int)[k] as int]@,
                    format,
                ),
        decreases names.len() - i,
    {
        let plan = build_image_plan(
            chapter.id,
            scramble_id,
            i,
            chapter.images[i].as_str(),
            format,
        );
        match plan {
            Some(p) => {
                images.push(p);
            },
            None => {},
        }
        i += 1;
    }
    let p = JmChapterPlan { chapter_id: chapter.id, chapter_title, order, dir_name, images };
    proof {
        assert forall|k: int| #![trigger p.images@[k]] 0 <= k < p.images@.len() implies ({
            let chapter = detail.chapters@[index as int];
            let name = chapter.images@[planned_indices(
                chapter.images@,
                chapter.images@.len() as int,
            )[k] as int]@;
            &&& p.images@[k].url@ == "https://cdn-msp2.jmapiproxy2.cc/media/photos/"@
                + signed_decimal(chapter.id as int) + "/"@ + name
            &&& p.images@[k].block_num == spec_page_block_num(
                scramble_id,
                chapter.id,
                name,
                spec_path_file_stem(name)->0,
            )
            &&& p.images@[k].file_name@ == spec_page_file_name(
                planned_indices(chapter.images@, chapter.images@.len() as int)[k],
                name,
                format,
            )
        }) by {
            lemma_chapter_pages_use_chapter_id(p, *detail, index as int, scramble_id, format, k);
        }
    }
    p
}

// ---------------------------------------------------------------------------
// Download plans
// ---------------------------------------------------------------------------

/// How a comic is downloaded.
#[derive(Debug)]
pub struct JmDownloadPlan {
    pub comic_id: i64,
    pub title: String,
    pub cover: String,
    /// The directory pages are downloaded into.
    pub temp_dir_name: String,
    /// The directory the finished download is moved to (and archived from).
    pub final_dir_name: String,
    pub chapters: Vec<JmChapterPlan>,
}

/// The number of pages planned over a list of chapters.
pub open spec fn plan_image_total(chapters: Seq<JmChapterPlan>) -> int
    decreases chapters.len(),
{
    if chapters.len() == 0 {
        0
    } else {
        plan_image_total(chapters.drop_last()) + chapters.last().images@.len()
    }
}

/// The pages planned over a list of chapters, chapter by chapter.
pub open spec fn plan_images(chapters: Seq<JmChapterPlan>) -> Seq<JmImagePlan>
    decreases chapters.len(),
{
    if chapters.len() == 0 {
        Seq::empty()
    } else {
        plan_images(chapters.drop_last()) + chapters.last().images@
    }
}

/// Lemma (counting law): the pages listed chapter by chapter are as many as
/// the counted total.
pub proof fn lemma_plan_images_len(chapters: Seq<JmChapterPlan>)
    ensures
        plan_images(chapters).len() == plan_image_total(chapters),
    decreases chapters.len(),
{
    if chapters.len() > 0 {
        lemma_plan_images_len(chapters.drop_last());
    }
}

/// Lemma: totals over a prefix.
proof fn lemma_plan_total_prefix(chapters: Seq<JmChapterPlan>, k: int)
    requires
        0 <= k <= chapters.len(),
    ensures
        0 <= plan_image_total(chapters.subrange(0, k)) <= plan_image_total(chapters),
        k < chapters.len() ==> plan_image_total(chapters.subrange(0, k + 1)) == plan_image_total(
            chapters.subrange(0, k),
        ) + chapters[k].images@.len(),
    decreases chapters.len(),
{
    if k < chapters.len() {
        assert(chapters.subrange(0, k + 1).drop_last() =~= chapters.subrange(0, k));
    }
    if k == chapters.len() {
        assert(chapters.subrange(0, k) =~= chapters);
        lemma_plan_total_nonneg(chapters);
    } else {
        lemma_plan_total_prefix(chapters.drop_last(), k);
        assert(chapters.drop_last().subrange(0, k) =~= chapters.subrange(0, k));
    }
}

/// Lemma: totals are not negative.
proof fn lemma_plan_total_nonneg(chapters: Seq<JmChapterPlan>)
    ensures
        plan_image_total(chapters) >= 0,
    decreases chapters.len(),
{
    if chapters.len() > 0 {
        lemma_plan_total_nonneg(chapters.drop_last());
    }
}

/// The plans referred to.
pub open spec fn deref_plans(s: Seq<&JmImagePlan>) -> Seq<JmImagePlan> {
    s.map_values(|r: &JmImagePlan| *r)
}

impl JmDownloadPlan {
    /// The page total fits in `usize`.
    pub open spec fn wf(&self) -> bool {
        plan_image_total(self.chapters@) <= usize::MAX
    }

    /// The number of pages over all chapters.
    pub fn image_count(&self) -> (n: usize)
        requires
            self.wf(),
        ensures
            n == plan_image_total(self.chapters@),
    {
        count_plan_images(&self.chapters)
    }

    /// The pages of all chapters, chapter by chapter.
    pub fn images(&self) -> (res: Vec<&JmImagePlan>)
        ensures
            deref_plans(res@) == plan_images(self.chapters@),
    {
        let mut res: Vec<&JmImagePlan> = Vec::new();
        let mut c: usize = 0;
        while c < self.chapters.len()
            invariant
                c <= self.chapters@.len(),
                deref_plans(res@) == plan_images(self.chapters@.subrange(0, c as int)),
            decreases self.chapters.len() - c,
        {
            let ghost before = deref_plans(res@);
            let chapter = &self.chapters[c];
            let mut k: usize = 0;
            while k < chapter.images.len()
                invariant
                    k <= chapter.images@.len(),
                    deref_plans(res@) == before + chapter.images@.subrange(0, k as int),
                decreases chapter.images.len() - k,
            {
                let ghost old_res = res@;
                res.push(&chapter.images[k]);
                proof {
                    assert(deref_plans(res@) =~= deref_plans(old_res).push(chapter.images@[k as int]));
                    assert(chapter.images@.subrange(0, k + 1) =~= chapter.images@.subrange(0, k as int).push(chapter.images@[k as int]));
                }
                k += 1;
                proof {
                    assert(deref_plans(res@) =~= before + chapter.images@.subrange(0, k as int));
                }
            }
            proof {
                assert(chapter.images@.subrange(0, chapter.images@.len() as int)
                    =~= chapter.images@);
                assert(self.chapters@.subrange(0, c + 1).drop_last() =~= self.chapters@.subrange(
                    0,
                    c as int,
                ));
            }
            c += 1;
        }
        proof {
            assert(self.chapters@.subrange(0, self.chapters@.len() as int) =~= self.chapters@);
        }
        res
    }
}

/// The number of pages over a list of chapter plans.
fn count_plan_images(chapters: &Vec<JmChapterPlan>) -> (n: usize)
    requires
        plan_image_total(chapters@) <= usize::MAX,
    ensures
        n == plan_image_total(chapters@),
{
    let mut n: usize = 0;
    let mut i: usize = 0;
    while i < chapters.len()
        invariant
            i <= chapters@.len(),
            n == plan_image_total(chapters@.subrange(0, i as int)),
            plan_image_total(chapters@) <= usize::MAX,
        decreases chapters.len() - i,
    {
        proof {
            lemma_plan_total_prefix(chapters@, i as int);
            lemma_plan_total_prefix(chapters@, i + 1);
        }
        n = n + chapters[i].images.len();
        i += 1;
    }
    proof {
        assert(chapters@.subrange(0, chapters@.len() as int) =~= chapters@);
    }
    n
}

/// Why no plan could be made.
#[derive(Debug)]
pub enum PlanError {
    /// No chapter has a page that can be downloaded; carries the title.
    NoImages { title: String },
}

/// The directory pages are downloaded into before the download is complete.
pub open spec fn spec_temp_dir_name(safe: Seq<char>) -> Seq<char> {
    ".下载中-"@ + safe
}

/// The download plan of a comic from its chapter plans: its title, cover and
/// directories; refused when no chapter has a page to download.
pub fn finish_plan(detail: &JmComicDetail, chapters: Vec<JmChapterPlan>) -> (res: Result<
    JmDownloadPlan,
    PlanError,
>)
    requires
        plan_image_total(chapters@) <= usize::MAX,
    ensures
        plan_image_total(chapters@) == 0 ==> (res matches Err(PlanError::NoImages { title })
            && title@ == spec_detail_title(*detail)),
        plan_image_total(chapters@) > 0 ==> (res matches Ok(plan) && plan.wf() && plan.comic_id
            == detail.comic.id && plan.title@ == spec_detail_title(*detail) && plan.cover@
            == spec_cover_url(detail.comic.id) && plan.final_dir_name@ == spec_download_dir_name(
            detail.comic.id,
            spec_detail_title(*detail),
        ) && plan.temp_dir_name@ == spec_temp_dir_name(plan.final_dir_name@) && plan.chapters
            == chapters),
{
    let title = detail.title();
    let total = count_plan_images(&chapters);
    if total == 0 {
        return Err(PlanError::NoImages { title });
    }
    let safe = build_download_dir_name(detail.comic.id, title.as_str());
    let mut temp = str_chars(".下载中-");
    append_chars(&mut temp, &str_chars(safe.as_str()));
    Ok(JmDownloadPlan {
        comic_id: detail.comic.id,
        title,
        cover: detail.cover(),
        temp_dir_name: chars_to_string(&temp),
        final_dir_name: safe,
        chapters,
    })
}

// ---------------------------------------------------------------------------
// Metadata
// ---------------------------------------------------------------------------

/// What is recorded about a chapter.
#[derive(Debug)]
pub struct JmChapterMetadata {
    pub chapter_id: i64,
    pub chapter_title: String,
    pub order: i64,
    pub image_count: usize,
}

/// What is recorded about a downloaded comic.
#[derive(Debug)]
pub struct JmMetadata {
    pub provider: String,
    pub id: i64,
    pub title: String,
    pub cover: String,
    pub chapters: Vec<JmChapterMetadata>,
}

/// Whether `m` records chapter plan `c`.
pub open spec fn records_chapter(m: JmChapterMetadata, c: JmChapterPlan) -> bool {
    &&& m.chapter_id == c.chapter_id
    &&& m.chapter_title@ == c.chapter_title@
    &&& m.order == c.order
    &&& m.image_count == c.images@.len()
}

/// The metadata of one chapter.
pub fn chapter_metadata(chapter: &JmChapterPlan) -> (m: JmChapterMetadata)
    ensures
        records_chapter(m, *chapter),
{
    JmChapterMetadata {
        chapter_id: chapter.chapter_id,
        chapter_title: chapter.chapter_title.clone(),
        order: chapter.order,
        image_count: chapter.images.len(),
    }
}

/// The metadata of a planned comic (provider `jmcomic`).
pub fn plan_metadata(plan: &JmDownloadPlan) -> (m: JmMetadata)
    ensures
        m.provider@ == "jmcomic"@,
        m.id == plan.comic_id,
        m.title@ == plan.title@,
        m.cover@ == plan.cover@,
        m.chapters@.len() == plan.chapters@.len(),
        forall|k: int|
            0 <= k < m.chapters@.len() ==> records_chapter(
                #[trigger] m.chapters@[k],
                plan.chapters@[k],
            ),
{
    let mut chapters: Vec<JmChapterMetadata> = Vec::new();
    let mut i: usize = 0;
    while i < plan.chapters.len()
        invariant
            i <= plan.chapters@.len(),
            chapters@.len() == i,
            forall|k: int|
                0 <= k < i ==> records_chapter(#[trigger] chapters@[k], plan.chapters@[k]),
        decreases plan.chapters.len() - i,
    {
        chapters.push(chapter_metadata(&plan.chapters[i]));
        i += 1;
    }
    JmMetadata {
        provider: chars_to_string(&str_chars("jmcomic")),
        id: plan.comic_id,
        title: plan.title.clone(),
        cover: plan.cover.clone(),
        chapters,
    }
}

// ---------------------------------------------------------------------------
// Resuming: what a leftover download directory keeps
// ---------------------------------------------------------------------------

/// The name of the comic's metadata file.
pub open spec fn comic_metadata_file() -> Seq<char> {
    "元数据.json"@
}

/// The name of a chapter's metadata file.
pub open spec fn chapter_metadata_file() -> Seq<char> {
    "章节元数据.json"@
}

/// The entries a comic's download directory keeps: its chapter directories
/// and the metadata file.
pub fn root_keep_names(plan: &JmDownloadPlan) -> (names: Vec<String>)
    ensures
        names@.len() == plan.chapters@.len() + 1,
        forall|k: int| 0 <= k < plan.chapters@.len() ==> #[trigger] names@[k]@ == plan.chapters@[k].dir_name@,
        names@[plan.chapters@.len() as int]@ == comic_metadata_file(),
{
    let mut names: Vec<String> = Vec::new();
    let mut i: usize = 0;
    while i < plan.chapters.len()
        invariant
            i <= plan.chapters@.len(),
            names@.len() == i,
            forall|k: int| 0 <= k < i ==> #[trigger] names@[k]@ == plan.chapters@[k].dir_name@,
        decreases plan.chapters.len() - i,
    {
        names.push(plan.chapters[i].dir_name.clone());
        i += 1;
    }
    names.push(chars_to_string(&str_chars("元数据.json")));
    names
}

/// The entries a chapter's directory keeps: its pages' files and the
/// chapter metadata file.
pub fn chapter_keep_names(chapter: &JmChapterPlan) -> (names: Vec<String>)
    ensures
        names@.len() == chapter.images@.len() + 1,
        forall|k: int| 0 <= k < chapter.images@.len() ==> #[trigger] names@[k]@ == chapter.images@[k].file_name@,
        names@[chapter.images@.len() as int]@ == chapter_metadata_file(),
{
    let mut names: Vec<String> = Vec::new();
    let mut i: usize = 0;
    while i < chapter.images.len()
        invariant
            i <= chapter.images@.len(),
            names@.len() == i,
            forall|k: int| 0 <= k < i ==> #[trigger] names@[k]@ == chapter.images@[k].file_name@,
        decreases chapter.images.len() - i,
    {
        names.push(chapter.images[i].file_name.clone());
        i += 1;
    }
    names.push(chars_to_string(&str_chars("章节元数据.json")));
    names
}

/// Whether a directory entry called `name` is removed: it is not kept.
pub fn should_delete_entry(name: &str, keep: &Vec<String>) -> (b: bool)
    ensures
        b == !(exists|k: int| 0 <= k < keep@.len() && #[trigger] keep@[k]@ == name@),
{
    let mut i: usize = 0;
    while i < keep.len()
        invariant
            i <= keep@.len(),
            forall|k: int| 0 <= k < i ==> #[trigger] keep@[k]@ != name@,
        decreases keep.len() - i,
    {
        if crate::text::eq_chars(&str_chars(keep[i].as_str()), &str_chars(name)) {
            return false;
        }
        i += 1;
    }
    true
}

// ---------------------------------------------------------------------------
// Outcomes
// ---------------------------------------------------------------------------

/// A finished download.
#[derive(Debug)]
pub struct JmDownloadSuccess {
    pub comic_id: i64,
    pub title: String,
    pub zip_path: String,
    pub completed_images: usize,
    pub total_images: usize,
}

/// A failed download, with what was done before it failed.
#[derive(Debug)]
pub struct JmDownloadFailure {
    pub comic_id: Option<i64>,
    pub title: String,
    pub reason: String,
    pub completed_images: usize,
    pub total_images: usize,
    /// The directory that holds what was downloaded, if any.
    pub download_dir: Option<String>,
    /// The archive, if it was written.
    pub zip_path: Option<String>,
}

/// The failure of a download that could not be planned: it names the input.
pub fn failure_before_plan(input: &str, reason: String) -> (f: JmDownloadFailure)
    ensures
        f.comic_id is None,
        f.title@ == input@,
        f.reason == reason,
        f.completed_images == 0,
        f.total_images == 0,
        f.download_dir is None,
        f.zip_path is None,
{
    JmDownloadFailure {
        comic_id: None,
        title: chars_to_string(&str_chars(input)),
        reason,
        completed_images: 0,
        total_images: 0,
        download_dir: None,
        zip_path: None,
    }
}

/// The failure of a planned download.
pub fn failure_for_plan(
    plan: &JmDownloadPlan,
    reason: String,
    completed_images: usize,
    download_dir: Option<String>,
    zip_path: Option<String>,
) -> (f: JmDownloadFailure)
    requires
        plan.wf(),
        completed_images <= plan_image_total(plan.chapters@),
        zip_path is Some ==> download_dir is Some,
    ensures
        f.completed_images <= f.total_images,
        f.zip_path is Some ==> f.download_dir is Some,
        f.comic_id == Some(plan.comic_id),
        f.title@ == plan.title@,
        f.reason == reason,
        f.completed_images == completed_images,
        f.total_images == plan_image_total(plan.chapters@),
        f.download_dir == download_dir,
        f.zip_path == zip_path,
{
    JmDownloadFailure {
        comic_id: Some(plan.comic_id),
        title: plan.title.clone(),
        reason,
        completed_images,
        total_images: plan.image_count(),
        download_dir,
        zip_path,
    }
}

/// After all pages were attempted: the failure when any page failed, with
/// the first failure's message, and the download directory kept.
pub fn incomplete_download(
    plan: &JmDownloadPlan,
    completed_images: usize,
    failures: &Vec<String>,
    download_dir: String,
) -> (res: Option<JmDownloadFailure>)
    requires
        plan.wf(),
        completed_images <= plan_image_total(plan.chapters@),
    ensures
        failures@.len() == 0 ==> res is None,
        failures@.len() > 0 ==> (res matches Some(f) && f.comic_id == Some(plan.comic_id)
            && f.title@ == plan.title@ && f.reason@ == "JMComic 下载不完整: "@ + failures@[0]@
            && f.completed_images == completed_images && f.total_images == plan_image_total(
            plan.chapters@,
        ) && f.download_dir == Some(download_dir) && f.zip_path is None),
{
    if failures.len() == 0 {
        return None;
    }
    let mut reason = str_chars("JMComic 下载不完整: ");
    append_chars(&mut reason, &str_chars(failures[0].as_str()));
    Some(
        failure_for_plan(
            plan,
            chars_to_string(&reason),
            completed_images,
            Some(download_dir),
            None,
        ),
    )
}

/// A finished download of a plan.
pub fn download_success(plan: &JmDownloadPlan, zip_path: String, completed_images: usize) -> (s:
    JmDownloadSuccess)
    requires
        plan.wf(),
        completed_images == plan_image_total(plan.chapters@),
    ensures
        s.completed_images == s.total_images,
        s.comic_id == plan.comic_id,
        s.title@ == plan.title@,
        s.zip_path == zip_path,
        s.completed_images == completed_images,
        s.total_images == plan_image_total(plan.chapters@),
{
    JmDownloadSuccess {
        comic_id: plan.comic_id,
        title: plan.title.clone(),
        zip_path,
        completed_images,
        total_images: plan.image_count(),
    }
}

/// The archive written for a comic's directory: `<name>.zip` beside it.
pub fn zip_file_name(dir_name: &str) -> (res: String)
    ensures
        res@ == dir_name@ + ".zip"@,
{
    let mut t = str_chars(dir_name);
    append_chars(&mut t, &str_chars(".zip"));
    chars_to_string(&t)
}

} // verus!

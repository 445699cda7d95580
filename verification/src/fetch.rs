//! The requests that describe a target, as a state machine: the caller
//! performs each requested API call and hands back what it returned; the
//! machine decides the next request or finishes the comic's detail.
use vstd::prelude::*;

use crate::comic::{
    album_detail, album_id_of_chapter, chapter_detail, lemma_selected_chapters_nonempty,
    selected_chapter_ids, spec_selected_chapter_ids, JmChapterResp, JmComicDetail, JmComicResp,
};
use crate::target::JmTarget;
use crate::text::spec_parse_i64;

verus! {

/// An API call the caller is to make.
#[derive(Debug, Clone, Copy, PartialEq, Eq, Structural)]
pub enum DetailAction {
    /// Fetch the comic (album) with this id.
    GetComic(i64),
    /// Fetch the chapter with this id.
    GetChapter(i64),
}

/// What an API call returned.
#[derive(Debug)]
pub enum DetailEvent {
    Comic(JmComicResp),
    Chapter(JmChapterResp),
}

/// How far describing a target has come.
#[derive(Debug)]
pub enum DetailState {
    /// An album was named; its comic is awaited.
    AlbumComic { album_id: i64 },
    /// The album's comic is known; its chapters are fetched in order and the
    /// next one awaited is `ids[chapters.len()]`.
    AlbumChapters { comic: JmComicResp, ids: Vec<i64>, chapters: Vec<JmChapterResp> },
    /// A chapter was named; it is awaited.
    ChapterItself { chapter_id: i64 },
    /// The named chapter is known; its comic is awaited.
    ChapterComic { chapter_id: i64, chapter: JmChapterResp },
}

/// The next request, or the finished detail.
#[derive(Debug)]
pub enum DetailStep {
    Request(DetailState, DetailAction),
    Done(JmComicDetail),
}

/// Whether a state awaits a comic (otherwise it awaits a chapter).
pub open spec fn awaits_comic(state: DetailState) -> bool {
    state is AlbumComic || state is ChapterComic
}

/// Whether `state` can take `event`: the event is of the awaited kind, and an
/// album still has a chapter to fetch.
pub open spec fn spec_accepts(state: DetailState, event: DetailEvent) -> bool {
    &&& awaits_comic(state) <==> event is Comic
    &&& state matches DetailState::AlbumChapters { ids, chapters, .. } ==> chapters@.len()
        < ids@.len()
}

/// The first request for a target: its comic for an album, the chapter for
/// a chapter.
pub fn start_detail(target: JmTarget) -> (res: (DetailState, DetailAction))
    ensures
        match target {
            JmTarget::Album(id) => res.0 == (DetailState::AlbumComic { album_id: id }) && res.1
                == DetailAction::GetComic(id),
            JmTarget::Chapter(id) => res.0 == (DetailState::ChapterItself { chapter_id: id })
                && res.1 == DetailAction::GetChapter(id),
        },
{
    match target {
        JmTarget::Album(id) => (DetailState::AlbumComic { album_id: id }, DetailAction::GetComic(id)),
        JmTarget::Chapter(id) => (
            DetailState::ChapterItself { chapter_id: id },
            DetailAction::GetChapter(id),
        ),
    }
}

impl DetailState {
    /// Whether this state can take `event`.
    pub fn accepts(&self, event: &DetailEvent) -> (b: bool)
        ensures
            b == spec_accepts(*self, *event),
    {
        let wants_comic = match self {
            DetailState::AlbumComic { .. } => true,
            DetailState::ChapterComic { .. } => true,
            _ => false,
        };
        let is_comic = match event {
            DetailEvent::Comic(_) => true,
            DetailEvent::Chapter(_) => false,
        };
        if wants_comic != is_comic {
            return false;
        }
        match self {
            DetailState::AlbumChapters { ids, chapters, .. } => chapters.len() < ids.len(),
            _ => true,
        }
    }
}

/// Takes what the last request returned and decides what comes next:
/// - an album's comic: fetch the chapters [`spec_selected_chapter_ids`]
///   names, first to last;
/// - an album's chapter: keep it; when all are in, the detail is the comic
///   with them;
/// - a named chapter: fetch the comic its series id names (the chapter's
///   own id when the series id is not a number);
/// - that comic: the detail is the comic with the named chapter.
pub fn advance_detail(state: DetailState, event: DetailEvent) -> (step: DetailStep)
    requires
        spec_accepts(state, event),
    ensures
        match (state, event) {
            (DetailState::AlbumComic { .. }, DetailEvent::Comic(c)) => {
                let ids = spec_selected_chapter_ids(c, None);
                step matches DetailStep::Request(
                    DetailState::AlbumChapters { comic, ids: v, chapters },
                    DetailAction::GetChapter(next),
                ) && comic == c && v@ == ids && chapters@.len() == 0 && next == ids[0]
            },
            (DetailState::AlbumChapters { comic, ids, chapters }, DetailEvent::Chapter(ch)) => {
                let got = chapters@.push(ch);
                if got.len() == ids@.len() {
                    step matches DetailStep::Done(d) && d.comic == comic && d.selected_chapter_id
                        is None && d.chapters@ == got
                } else {
                    step matches DetailStep::Request(
                        DetailState::AlbumChapters { comic: c2, ids: v2, chapters: ch2 },
                        DetailAction::GetChapter(next),
                    ) && c2 == comic && v2@ == ids@ && ch2@ == got && next == ids@[got.len() as int]
                }
            },
            (DetailState::ChapterItself { chapter_id }, DetailEvent::Chapter(ch)) => {
                let album = match spec_parse_i64(ch.series_id@) {
                    Some(v) => v,
                    None => chapter_id,
                };
                step matches DetailStep::Request(
                    DetailState::ChapterComic { chapter_id: id2, chapter },
                    DetailAction::GetComic(a),
                ) && id2 == chapter_id && chapter == ch && a == album
            },
            (DetailState::ChapterComic { chapter_id, chapter }, DetailEvent::Comic(c)) => {
                step matches DetailStep::Done(d) && d.comic == c && d.selected_chapter_id == Some(
                    chapter_id,
                ) && d.chapters@ == seq![chapter]
            },
            _ => false,
        },
{
    match (state, event) {
        (DetailState::AlbumComic { .. }, DetailEvent::Comic(c)) => {
            let ids = selected_chapter_ids(&c, None);
            proof {
                lemma_selected_chapters_nonempty(c, None);
            }
            let next = ids[0];
            DetailStep::Request(
                DetailState::AlbumChapters { comic: c, ids, chapters: Vec::new() },
                DetailAction::GetChapter(next),
            )
        },
        (DetailState::AlbumChapters { comic, ids, chapters }, DetailEvent::Chapter(ch)) => {
            let mut chapters = chapters;
            chapters.push(ch);
            if chapters.len() == ids.len() {
                DetailStep::Done(album_detail(comic, chapters))
            } else {
                let next = ids[chapters.len()];
                DetailStep::Request(
                    DetailState::AlbumChapters { comic, ids, chapters },
                    DetailAction::GetChapter(next),
                )
            }
        },
        (DetailState::ChapterItself { chapter_id }, DetailEvent::Chapter(ch)) => {
            let album = album_id_of_chapter(ch.series_id.as_str(), chapter_id);
            DetailStep::Request(
                DetailState::ChapterComic { chapter_id, chapter: ch },
                DetailAction::GetComic(album),
            )
        },
        (DetailState::ChapterComic { chapter_id, chapter }, DetailEvent::Comic(c)) => {
            DetailStep::Done(chapter_detail(c, chapter_id, chapter))
        },
        _ => {
            // The event is always of the awaited kind.
            proof {
                assert(false);
            }
            DetailStep::Request(DetailState::AlbumComic { album_id: 0 }, DetailAction::GetComic(0))
        },
    }
}

} // verus!

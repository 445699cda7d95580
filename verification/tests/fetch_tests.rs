use manga_downloader::comic::{JmChapterResp, JmComicDetail, JmComicResp, JmSeries};
use manga_downloader::fetch::{advance_detail, start_detail, DetailAction, DetailEvent, DetailStep};
use manga_downloader::target::JmTarget;

fn comic(id: i64, series: &[&str]) -> JmComicResp {
    JmComicResp {
        id,
        name: format!("comic {id}"),
        series: series.iter().map(|s| JmSeries { id: s.to_string(), name: String::new() }).collect(),
    }
}

fn chapter(id: i64, series_id: &str) -> JmChapterResp {
    JmChapterResp { id, name: String::new(), images: vec![], series_id: series_id.to_string() }
}

/// Answers each request from fixed data and records the requests.
fn run(target: JmTarget, comics: &[JmComicResp], chapters: &[JmChapterResp]) -> (Vec<DetailAction>, JmComicDetail) {
    let (mut state, mut action) = start_detail(target);
    let mut asked = Vec::new();
    loop {
        asked.push(action);
        let event = match action {
            DetailAction::GetComic(id) => {
                let c = comics.iter().find(|c| c.id == id).unwrap();
                DetailEvent::Comic(JmComicResp { id: c.id, name: c.name.clone(), series: c.series.iter().map(|s| JmSeries { id: s.id.clone(), name: s.name.clone() }).collect() })
            }
            DetailAction::GetChapter(id) => {
                let c = chapters.iter().find(|c| c.id == id).unwrap();
                DetailEvent::Chapter(chapter(c.id, &c.series_id))
            }
        };
        assert!(state.accepts(&event));
        match advance_detail(state, event) {
            DetailStep::Request(s, a) => {
                state = s;
                action = a;
            }
            DetailStep::Done(d) => return (asked, d),
        }
    }
}

#[test]
fn album_inputs_fetch_the_comic_then_its_chapters() {
    let (asked, d) = run(JmTarget::Album(10), &[comic(10, &["11", "x", "12"])], &[chapter(11, ""), chapter(12, "")]);
    assert_eq!(asked, vec![DetailAction::GetComic(10), DetailAction::GetChapter(11), DetailAction::GetChapter(12)]);
    assert_eq!(d.selected_chapter_id, None);
    assert_eq!(d.chapters.iter().map(|c| c.id).collect::<Vec<_>>(), vec![11, 12]);
}

#[test]
fn albums_without_chapter_list_are_their_own_chapter() {
    let (asked, d) = run(JmTarget::Album(10), &[comic(10, &[])], &[chapter(10, "")]);
    assert_eq!(asked, vec![DetailAction::GetComic(10), DetailAction::GetChapter(10)]);
    assert_eq!(d.chapters.len(), 1);
}

#[test]
fn chapter_inputs_fetch_the_chapter_then_its_album() {
    let (asked, d) = run(JmTarget::Chapter(7), &[comic(3, &["7"])], &[chapter(7, "3")]);
    assert_eq!(asked, vec![DetailAction::GetChapter(7), DetailAction::GetComic(3)]);
    assert_eq!(d.selected_chapter_id, Some(7));
    assert_eq!(d.comic.id, 3);
    let (asked, _) = run(JmTarget::Chapter(7), &[comic(7, &[])], &[chapter(7, "none")]);
    assert_eq!(asked, vec![DetailAction::GetChapter(7), DetailAction::GetComic(7)]);
}

#[test]
fn states_refuse_unexpected_events() {
    let (state, _) = start_detail(JmTarget::Album(1));
    assert!(!state.accepts(&DetailEvent::Chapter(chapter(1, ""))));
    assert!(state.accepts(&DetailEvent::Comic(comic(1, &[]))));
}

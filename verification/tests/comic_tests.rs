use manga_downloader::comic::{
    album_detail, album_id_of_chapter, chapter_detail, selected_chapter_ids, JmChapterResp,
    JmComicResp, JmSeries,
};

fn series(id: &str, name: &str) -> JmSeries {
    JmSeries { id: id.to_string(), name: name.to_string() }
}

fn chapter(id: i64, name: &str, images: &[&str]) -> JmChapterResp {
    JmChapterResp {
        id,
        name: name.to_string(),
        images: images.iter().map(|s| s.to_string()).collect(),
        series_id: String::new(),
    }
}

fn comic(id: i64, name: &str, series: Vec<JmSeries>) -> JmComicResp {
    JmComicResp { id, name: name.to_string(), series }
}

#[test]
fn selects_chapters() {
    let c = comic(10, "x", vec![series("11", "a"), series("bad", "b"), series("12", "")]);
    assert_eq!(selected_chapter_ids(&c, None), vec![11, 12]);
    assert_eq!(selected_chapter_ids(&c, Some(99)), vec![99]);
    let lone = comic(10, "x", vec![series("", "")]);
    assert_eq!(selected_chapter_ids(&lone, None), vec![10]);
}

#[test]
fn finds_album_of_chapter() {
    assert_eq!(album_id_of_chapter("123", 5), 123);
    assert_eq!(album_id_of_chapter("", 5), 5);
    assert_eq!(album_id_of_chapter("x1", 5), 5);
}

#[test]
fn titles_chapters() {
    let c = comic(10, "Name", vec![series("11", "Start"), series("12", "")]);
    let d = album_detail(c, vec![chapter(11, "", &[]), chapter(12, "", &[]), chapter(13, "Extra", &[]), chapter(14, "", &[])]);
    assert_eq!(d.chapter_title(&d.chapters[0], 1), "第1话 Start");
    assert_eq!(d.chapter_title(&d.chapters[1], 2), "第2话");
    assert_eq!(d.chapter_title(&d.chapters[2], 3), "Extra");
    assert_eq!(d.chapter_title(&d.chapters[3], 4), "第4话");
}

#[test]
fn titles_and_summarises_comics() {
    let c = comic(1435054, " My/Comic ", vec![]);
    let d = album_detail(c, vec![chapter(1435054, "", &["00001.webp", "00002.webp"]), chapter(7, "", &["a.jpg"])]);
    assert_eq!(d.title(), "My Comic");
    assert_eq!(d.cover(), "https://cdn-msp3.18comic.vip/media/albums/1435054.jpg");
    assert_eq!(d.image_count(), 3);
    let s = d.summary();
    assert_eq!(s.id, 1435054);
    assert_eq!(s.title, "My Comic");
    assert_eq!(s.image_count, 3);

    let c2 = comic(5, "Book", vec![series("8", "Ch")]);
    let d2 = chapter_detail(c2, 8, chapter(8, "", &["1.webp"]));
    assert_eq!(d2.title(), "Book - 第1话 Ch");
    let c3 = comic(5, "Book", vec![]);
    let d3 = chapter_detail(c3, 9, chapter(8, "", &[]));
    assert_eq!(d3.title(), "Book - 章节 9");
}

#[test]
fn always_fetches_some_chapter() {
    let empty = comic(3, "x", vec![]);
    assert_eq!(selected_chapter_ids(&empty, None), vec![3]);
    assert_eq!(selected_chapter_ids(&empty, Some(4)), vec![4]);
}

use manga_downloader::comic::{album_detail, JmChapterResp, JmComicResp, JmSeries};
use manga_downloader::image::DownloadFormat;
use manga_downloader::naming::{
    build_download_dir_name, build_image_plan, truncate_utf8_by_bytes, truncate_utf8_str,
};
use manga_downloader::plan::{
    build_chapter_plan, chapter_keep_names, chapter_metadata, download_success,
    effective_concurrency, failure_before_plan, failure_for_plan, finish_plan, image_fetch_step,
    incomplete_download, plan_metadata, retry_delay_secs, root_keep_names, should_delete_entry,
    zip_file_name, ImageFetchStep, JmDownloadOptions, PlanError,
};

fn c(text: &str) -> Vec<char> {
    text.chars().collect()
}

#[test]
fn truncates_by_bytes_at_char_boundaries() {
    let s: String = truncate_utf8_by_bytes(&c("ab第cd"), 4).iter().collect();
    assert_eq!(s, "ab");
    let s: String = truncate_utf8_by_bytes(&c("ab第cd"), 5).iter().collect();
    assert_eq!(s, "ab第");
    let s: String = truncate_utf8_by_bytes(&c("ab  cd"), 4).iter().collect();
    assert_eq!(s, "ab");
    let s: String = truncate_utf8_by_bytes(&c("fits  "), 10).iter().collect();
    assert_eq!(s, "fits  ");
    assert_eq!(truncate_utf8_str("第第第", 7), "第第");
}

#[test]
fn names_download_directories() {
    assert_eq!(build_download_dir_name(123, "My: Title"), "My： Title [JM123]");
    assert_eq!(build_download_dir_name(123, "  /  "), "JMComic 123");
    let long = "长".repeat(100);
    let name = build_download_dir_name(1435054, &long);
    assert!(name.len() <= 180);
    assert!(name.ends_with(" [JM1435054]"));
    assert_eq!(name, format!("{} [JM1435054]", "长".repeat(56)));
}

#[test]
fn plans_pages() {
    let p = build_image_plan(456789, 220980, 0, "00001.webp", DownloadFormat::Jpeg).unwrap();
    assert_eq!(p.url, "https://cdn-msp2.jmapiproxy2.cc/media/photos/456789/00001.webp");
    assert_eq!(p.file_name, "0001.jpg");
    assert_eq!(p.block_num, 2);
    let g = build_image_plan(456789, 220980, 9, "00010.GIF", DownloadFormat::Jpeg).unwrap();
    assert_eq!(g.file_name, "0010.gif");
    assert_eq!(g.block_num, 0);
    let o = build_image_plan(100, 220980, 1, "a.PNG", DownloadFormat::Original).unwrap();
    assert_eq!(o.file_name, "0002.png");
    assert_eq!(o.block_num, 0);
    let n = build_image_plan(100, 220980, 2, "noext", DownloadFormat::Original).unwrap();
    assert_eq!(n.file_name, "0003.webp");
    assert!(build_image_plan(100, 220980, 0, "", DownloadFormat::Png).is_none());
}

fn detail() -> manga_downloader::comic::JmComicDetail {
    let comic = JmComicResp {
        id: 500000,
        name: "Book".to_string(),
        series: vec![JmSeries { id: "500000".to_string(), name: "One".to_string() }],
    };
    let chapter = JmChapterResp {
        id: 500000,
        name: String::new(),
        images: vec!["00001.webp".to_string(), "".to_string(), "00002.webp".to_string()],
        series_id: String::new(),
    };
    album_detail(comic, vec![chapter])
}

#[test]
fn plans_chapters_and_downloads() {
    let d = detail();
    let ch = build_chapter_plan(&d, 0, 220980, DownloadFormat::Png);
    assert_eq!(ch.order, 1);
    assert_eq!(ch.chapter_title, "第1话 One");
    assert_eq!(ch.dir_name, "001 第1话 One");
    assert_eq!(ch.images.len(), 2);
    assert_eq!(ch.images[0].file_name, "0001.png");
    assert_eq!(ch.images[1].file_name, "0003.png");
    assert_eq!(ch.images[1].block_num, 12);

    let plan = finish_plan(&d, vec![ch]).unwrap();
    assert_eq!(plan.comic_id, 500000);
    assert_eq!(plan.title, "Book");
    assert_eq!(plan.final_dir_name, "Book [JM500000]");
    assert_eq!(plan.temp_dir_name, ".下载中-Book [JM500000]");
    assert_eq!(plan.image_count(), 2);
    assert_eq!(plan.images().len(), plan.image_count());

    let m = plan_metadata(&plan);
    assert_eq!(m.provider, "jmcomic");
    assert_eq!(m.chapters.len(), 1);
    assert_eq!(m.chapters[0].image_count, 2);
    let cm = chapter_metadata(&plan.chapters[0]);
    assert_eq!(cm.chapter_title, "第1话 One");

    let root = root_keep_names(&plan);
    assert_eq!(root, vec!["001 第1话 One".to_string(), "元数据.json".to_string()]);
    let keep = chapter_keep_names(&plan.chapters[0]);
    assert_eq!(keep, vec!["0001.png".to_string(), "0003.png".to_string(), "章节元数据.json".to_string()]);
    assert!(!should_delete_entry("0001.png", &keep));
    assert!(should_delete_entry("0002.png", &keep));

    let f = failure_for_plan(&plan, "x".to_string(), 1, Some("d".to_string()), None);
    assert_eq!(f.comic_id, Some(500000));
    assert_eq!(f.total_images, 2);
    assert!(incomplete_download(&plan, 2, &vec![], "d".to_string()).is_none());
    let inc = incomplete_download(&plan, 1, &vec!["boom".to_string(), "b".to_string()], "d".to_string()).unwrap();
    assert_eq!(inc.reason, "JMComic 下载不完整: boom");
    assert_eq!(inc.completed_images, 1);
    let s = download_success(&plan, "z.zip".to_string(), 2);
    assert_eq!((s.completed_images, s.total_images), (2, 2));
}

#[test]
fn refuses_plans_without_pages() {
    let d = detail();
    let mut ch = build_chapter_plan(&d, 0, 220980, DownloadFormat::Png);
    ch.images.clear();
    match finish_plan(&d, vec![ch]) {
        Err(PlanError::NoImages { title }) => assert_eq!(title, "Book"),
        _ => panic!("expected no images"),
    }
}

#[test]
fn small_decisions() {
    let f = failure_before_plan("jm:1", "bad".to_string());
    assert_eq!(f.title, "jm:1");
    assert_eq!(f.comic_id, None);
    let mut o = JmDownloadOptions {
        download_dir: "/data".to_string(),
        format: DownloadFormat::Jpeg,
        img_concurrency: 0,
        img_interval_sec: 0,
        img_retry_count: 2,
    };
    assert_eq!(effective_concurrency(&o), 1);
    o.img_concurrency = 5;
    assert_eq!(effective_concurrency(&o), 5);
    assert_eq!(retry_delay_secs(0, 2), Some(1));
    assert_eq!(retry_delay_secs(1, 2), Some(2));
    assert_eq!(retry_delay_secs(2, 2), None);
    assert_eq!(image_fetch_step(404, 10, false), ImageFetchStep::Reject);
    assert_eq!(image_fetch_step(200, 0, false), ImageFetchStep::Refetch);
    assert_eq!(image_fetch_step(200, 0, true), ImageFetchStep::Accept);
    assert_eq!(zip_file_name("Book [JM1]"), "Book [JM1].zip");
}

use manga_downloader::image::{
    calculate_block_num, detect_format, process_image, saves_source_bytes, stitch_img,
    DownloadFormat, ImageError, ImgFormat, RgbPixels,
};

fn c(text: &str) -> Vec<char> {
    text.chars().collect()
}

fn rows(height: u32) -> RgbPixels {
    let mut data = Vec::new();
    for y in 0..height {
        data.extend_from_slice(&[y as u8, y as u8 + 100, 7]);
    }
    RgbPixels { width: 1, height, data }
}

fn row_order(p: &RgbPixels) -> Vec<u8> {
    p.data.chunks(3 * p.width as usize).map(|r| r[0]).collect()
}

#[test]
fn block_numbers() {
    assert_eq!(calculate_block_num(220980, 100, &c("00001")), 0);
    assert_eq!(calculate_block_num(220980, 250000, &c("00001")), 10);
    assert_eq!(calculate_block_num(220980, 300000, &c("00001")), 16);
    assert_eq!(calculate_block_num(220980, 500000, &c("00001")), 12);
    assert_eq!(calculate_block_num(220980, 500000, &c("00002")), 12);
    assert_eq!(calculate_block_num(220980, 421925, &c("00003")), 20);
}

#[test]
fn stitches_blocks_back_in_order() {
    let out = stitch_img(&rows(5), 2);
    assert_eq!((out.width, out.height), (1, 5));
    assert_eq!(row_order(&out), vec![2, 3, 4, 0, 1]);
    let out = stitch_img(&rows(6), 3);
    assert_eq!(row_order(&out), vec![4, 5, 2, 3, 0, 1]);
    let out = stitch_img(&rows(7), 3);
    assert_eq!(row_order(&out), vec![4, 5, 6, 2, 3, 0, 1]);
}

#[test]
fn stitching_keeps_images_it_cannot_cut() {
    let src = rows(4);
    assert_eq!(stitch_img(&src, 0).data, src.data);
    assert_eq!(stitch_img(&src, 1).data, src.data);
    assert_eq!(stitch_img(&src, 5).data, src.data);
}

#[test]
fn stitching_permutes_rows() {
    for h in 2u32..20 {
        for b in 2..=h {
            let mut order = row_order(&stitch_img(&rows(h), b));
            order.sort();
            assert_eq!(order, (0..h as u8).collect::<Vec<_>>());
        }
    }
}

#[test]
fn decides_when_bytes_are_kept() {
    assert!(saves_source_bytes(0, DownloadFormat::Jpeg, ImgFormat::Gif));
    assert!(saves_source_bytes(0, DownloadFormat::Original, ImgFormat::WebP));
    assert!(saves_source_bytes(0, DownloadFormat::Webp, ImgFormat::WebP));
    assert!(!saves_source_bytes(0, DownloadFormat::Jpeg, ImgFormat::WebP));
    assert!(!saves_source_bytes(10, DownloadFormat::Original, ImgFormat::WebP));
}

#[test]
fn formats_and_extensions() {
    assert_eq!(DownloadFormat::Jpeg.extension(), Some("jpg"));
    assert_eq!(DownloadFormat::Png.extension(), Some("png"));
    assert_eq!(DownloadFormat::Webp.extension(), Some("webp"));
    assert_eq!(DownloadFormat::Original.extension(), None);
    assert_eq!(DownloadFormat::Webp.to_image_format(), Some(ImgFormat::WebP));
    assert_eq!(DownloadFormat::Original.to_image_format(), None);
}

fn png_of(p: &RgbPixels) -> Vec<u8> {
    let img = image::RgbImage::from_raw(p.width, p.height, p.data.clone()).unwrap();
    let mut out = Vec::new();
    img.write_to(&mut std::io::Cursor::new(&mut out), image::ImageFormat::Png).unwrap();
    out
}

#[test]
fn processes_images() {
    let src = rows(5);
    let png = png_of(&src);
    assert_eq!(detect_format(&png).unwrap(), ImgFormat::Png);
    assert!(matches!(detect_format(&[1, 2, 3]), Err(ImageError::UnknownFormat)));

    let out = process_image(&png, 2, DownloadFormat::Png, ImgFormat::Png).unwrap();
    let decoded = image::load_from_memory(&out).unwrap().to_rgb8();
    let back = RgbPixels { width: decoded.width(), height: decoded.height(), data: decoded.into_raw() };
    assert_eq!(row_order(&back), vec![2, 3, 4, 0, 1]);

    let same = process_image(&png, 0, DownloadFormat::Original, ImgFormat::Png).unwrap();
    let decoded = image::load_from_memory(&same).unwrap().to_rgb8();
    assert_eq!(decoded.into_raw(), src.data);

    assert!(matches!(
        process_image(&png, 0, DownloadFormat::Original, ImgFormat::Gif),
        Err(ImageError::Unsupported(ImgFormat::Gif))
    ));
    assert!(matches!(
        process_image(&[0, 1, 2], 0, DownloadFormat::Png, ImgFormat::Png),
        Err(ImageError::Decode(_))
    ));
}

#[test]
fn other_formats_keep_their_names() {
    let mut bmp = b"BM".to_vec();
    bmp.extend_from_slice(&[0u8; 60]);
    assert_eq!(detect_format(&bmp).unwrap(), ImgFormat::Bmp);
    let png = png_of(&rows(2));
    assert!(matches!(
        process_image(&png, 0, DownloadFormat::Original, ImgFormat::Bmp),
        Err(ImageError::Unsupported(ImgFormat::Bmp))
    ));
    assert_eq!(format!("{:?}", ImgFormat::Tiff), format!("{:?}", image::ImageFormat::Tiff));
}

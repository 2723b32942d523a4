use wisp::clip::{fingerprint, fingerprint_bytes, make_preview, ClipFilter, ClipKind};
use wisp::clip_write::{
    dib_of, dib_of_file, drop_files, null_terminated_utf16, to_bgra_bottom_up, DIB_HEADER,
    DROP_HEADER,
};
use wisp::like::{escape_like, like_pattern, mentions_keyword};
use wisp::picture::{
    accepts_picture, fit_size, human_size, is_managed_image_path, orphan_images, picture_file,
    picture_file_from, picture_file_name, preview_from, preview_picture, thumb_picture, thumbnail,
    MAX_IMAGE_PIXELS, PREVIEW_MAX_EDGE, THUMB_MAX_EDGE,
};
use wisp::rounding::{round_nearest, to_double};

fn solid(pixels: usize, colour: [u8; 4]) -> Vec<u8> {
    let mut out = Vec::new();
    for _ in 0..pixels {
        out.extend_from_slice(&colour);
    }
    out
}

#[test]
fn managed_image_cleanup_never_crosses_the_images_directory() {
    let images_dir = r"C:\Wisp\data\images";

    assert!(is_managed_image_path(
        images_dir,
        r"C:\Wisp\data\images\00ff.png"
    ));
    assert!(!is_managed_image_path(
        images_dir,
        r"C:\Wisp\data\outside.png"
    ));
    assert!(!is_managed_image_path(
        images_dir,
        r"C:\Wisp\data\images\notes.txt"
    ));
}

#[test]
fn managed_images_are_told_by_parent_and_extension() {
    let images_dir = r"C:\Wisp\data\images";
    assert!(is_managed_image_path(images_dir, r"C:\Wisp\data\images\A.PNG"));
    assert!(is_managed_image_path(images_dir, r"c:/Wisp/data/images/a.png"));
    assert!(!is_managed_image_path(images_dir, r"C:\Wisp\data\images\sub\a.png"));
    assert!(!is_managed_image_path(images_dir, r"C:\Wisp\data\images\..\a.png"));
    assert!(!is_managed_image_path(images_dir, r"C:\Wisp\data\images\.png"));
}

#[test]
fn kinds_have_codes_and_labels() {
    for kind in [ClipKind::Text, ClipKind::Image, ClipKind::Files] {
        assert_eq!(ClipKind::from_i64(kind.code()), kind);
    }
    assert_eq!(ClipKind::from_i64(1), ClipKind::Image);
    assert_eq!(ClipKind::from_i64(2), ClipKind::Files);
    assert_eq!(ClipKind::from_i64(0), ClipKind::Text);
    assert_eq!(ClipKind::from_i64(-7), ClipKind::Text);
    assert_eq!(ClipKind::Text.label(), "文本");
    assert_eq!(ClipKind::Image.label(), "图像");
    assert_eq!(ClipKind::Files.label(), "文件");
    let labels: Vec<&str> = ClipFilter::ALL.iter().map(|f| f.label()).collect();
    assert_eq!(labels, ["全部", "文本", "图像", "文件", "收藏"]);
    assert!(ClipFilter::Pinned.accepts(ClipKind::Files, true));
    assert!(!ClipFilter::Pinned.accepts(ClipKind::Files, false));
    assert!(!ClipFilter::Text.accepts(ClipKind::Files, true));
}

#[test]
fn fingerprints_are_the_known_ones() {
    assert_eq!(fingerprint(""), 0xcbf2_9ce4_8422_2325_u64 as i64);
    assert_eq!(fingerprint("a"), 0xaf63_dc4c_8601_ec8c_u64 as i64);
    assert_eq!(fingerprint("foobar"), 0x8594_4171_f739_67e8_u64 as i64);
    assert_eq!(fingerprint("中"), fingerprint_bytes("中".as_bytes()));
}

#[test]
fn previews_take_the_first_line_that_is_not_blank() {
    assert_eq!(make_preview("  甲  "), "甲");
    assert_eq!(make_preview("\n\n 乙 \n丙"), "乙…");
    assert_eq!(make_preview(""), "");
    assert_eq!(make_preview("\n"), "");
    assert_eq!(make_preview("\n\n"), "…");
    let exact = "x".repeat(120);
    assert_eq!(make_preview(&exact), exact);
    assert_eq!(make_preview(&"x".repeat(121)), format!("{exact}…"));
}

#[test]
fn patterns_match_literally() {
    assert_eq!(escape_like(r"50%_\"), r"50\%\_\\");
    assert_eq!(like_pattern("a_b"), r"%a\_b%");
    assert!(mentions_keyword("Total: 50%", "50%"));
    assert!(!mentions_keyword("Total: 500", "50%"));
    assert!(mentions_keyword("ABC", "b"));
    assert!(!mentions_keyword("ÄBC", "ä"));
}

#[test]
fn sizes_read_as_floats_print_them() {
    let mut sizes: Vec<usize> = vec![
        0, 1, 1023, 1024, 1075, 1076, 1126, 1127, 1536, 2047, 102_399, 1_048_575, 1_048_576,
        1_100_000, 1_101_004, 5_242_880, 123_456_789, 4_294_967_295, 9_007_199_254_740_993,
    ];
    for i in 0..3000 {
        sizes.push(1024 + i * 351);
        sizes.push(1_048_576 + i * 52_429);
    }
    for bytes in sizes {
        let expected = if bytes < 1024 {
            format!("{bytes} B")
        } else if (bytes as f64) < 1024.0 * 1024.0 {
            format!("{:.1} KB", bytes as f64 / 1024.0)
        } else {
            format!("{:.1} MB", bytes as f64 / (1024.0 * 1024.0))
        };
        assert_eq!(human_size(bytes), expected);
    }
    assert_eq!(human_size(1536), "1.5 KB");
}

#[test]
fn fitted_sizes_are_those_of_floats() {
    let edges = [
        1_u32, 2, 3, 5, 7, 63, 64, 65, 127, 128, 129, 130, 200, 255, 256, 257, 300, 333, 639, 640,
        641, 777, 1000, 1023, 1080, 1279, 1280, 1366, 1920, 2160, 3840, 4096, 9999, 65_535,
        1_000_003, 4_294_967_295,
    ];
    for limit in [THUMB_MAX_EDGE, PREVIEW_MAX_EDGE] {
        for width in edges {
            for height in edges {
                let scale = f64::from(limit) / f64::from(width.max(height));
                let expected = if scale < 1.0 {
                    (
                        (f64::from(width) * scale).round() as u32,
                        (f64::from(height) * scale).round() as u32,
                    )
                } else {
                    (width, height)
                };
                assert_eq!(fit_size(limit, width, height), expected, "{limit} {width} {height}");
            }
        }
    }
}

#[test]
fn rounding_goes_to_the_even_neighbour() {
    assert_eq!(round_nearest(5, 2), 2);
    assert_eq!(round_nearest(7, 2), 4);
    assert_eq!(round_nearest(8, 3), 3);
    assert_eq!(to_double(9_007_199_254_740_993), 9_007_199_254_740_992);
    assert_eq!(to_double(9_007_199_254_740_995), 9_007_199_254_740_996);
}

#[test]
fn picture_names_are_hexadecimal() {
    assert_eq!(picture_file_name(0xff), "00000000000000ff.png");
    assert_eq!(picture_file_name(-1), "ffffffffffffffff.png");
    assert!(is_managed_image_path(r"C:\d", &format!("C:\\d\\{}", picture_file_name(5))));
}

#[test]
fn orphans_are_pictures_that_nothing_names() {
    let keep = vec!["a.png".to_string()];
    let names: Vec<String> = ["a.png", "b.png", "c.txt", "d.PNG"].map(String::from).to_vec();
    assert_eq!(orphan_images(&keep, &names), ["b.png"]);
}

#[test]
fn odd_pictures_are_not_kept() {
    assert!(accepts_picture(2, 3, 24));
    assert!(!accepts_picture(0, 3, 0));
    assert!(!accepts_picture(3, 0, 0));
    assert!(!accepts_picture(2, 3, 23));
    assert!(accepts_picture(4096, 4096, MAX_IMAGE_PIXELS as usize * 4));
    assert!(!accepts_picture(4096, 4097, 4096 * 4097 * 4));
    assert!(picture_file(r"C:\i", 2, 2, &vec![0; 15]).is_none());
    assert!(thumbnail(2, 2, &vec![0; 15]).is_none());
}

#[test]
fn kept_pictures_are_encoded_under_their_fingerprint() {
    let rgba = vec![1, 2, 3, 255, 4, 5, 6, 255];
    let file = picture_file(r"C:\i", 2, 1, &rgba).unwrap();
    assert_eq!(file.hash, fingerprint_bytes(&rgba));
    assert_eq!(file.path, format!("C:\\i\\{}", picture_file_name(file.hash)));
    assert_eq!(file.preview, format!("2×1 · {}", human_size(file.png.len())));
    assert_eq!(file.png[..8], [0x89, b'P', b'N', b'G', 0x0d, 0x0a, 0x1a, 0x0a]);
    let back = thumb_picture(&file.png).unwrap();
    assert_eq!((back.width, back.height), (2, 1));
    assert_eq!(back.pixels, [3, 2, 1, 255, 6, 5, 4, 255]);
    let given = picture_file_from("d", 2, 1, &rgba, vec![9; 2048]);
    assert_eq!(given.preview, "2×1 · 2.0 KB");
    assert_eq!(given.png, vec![9; 2048]);
}

#[test]
fn thumbnails_are_scaled_to_their_limit() {
    let rgba = solid(256 * 64, [10, 20, 30, 255]);
    let thumb = thumbnail(256, 64, &rgba).unwrap();
    let shown = thumb_picture(&thumb).unwrap();
    assert_eq!((shown.width, shown.height), (128, 32));
    assert_eq!(shown.pixels, solid(128 * 32, [30, 20, 10, 255]));
    let small = thumbnail(4, 2, &solid(8, [1, 2, 3, 255])).unwrap();
    assert_eq!(thumb_picture(&small).unwrap().width, 4);
    assert!(thumbnail(1000, 1, &solid(1000, [1, 2, 3, 255])).is_none());
}

#[test]
fn large_previews_are_scaled_and_never_vanish() {
    let rgba = solid(1280, [10, 20, 30, 255]);
    let wide = preview_from(1280, 1, &rgba).unwrap();
    assert_eq!((wide.width, wide.height), (640, 1));
    assert_eq!(wide.pixels, solid(640, [30, 20, 10, 255]));
    let file = picture_file(r"C:\i", 1280, 1, &rgba).unwrap();
    let read = preview_picture(&file.png).unwrap();
    assert_eq!((read.width, read.height), (640, 1));
    assert!(preview_picture(b"no picture").is_none());
    assert!(thumb_picture(b"no picture").is_none());
}

#[test]
fn file_lists_are_laid_out_for_the_clipboard() {
    assert!(drop_files(&Vec::new()).is_none());
    let bytes = drop_files(&vec!["é".to_string(), "😀".to_string()]).unwrap();
    assert_eq!(bytes[..4], DROP_HEADER.to_le_bytes());
    assert_eq!(bytes[4..16], [0; 12]);
    assert_eq!(bytes[16..20], [1, 0, 0, 0]);
    assert_eq!(
        bytes[20..],
        [0xe9, 0, 0, 0, 0x3d, 0xd8, 0x00, 0xde, 0, 0, 0, 0]
    );
    let expected: Vec<u16> = "C:\\é😀".encode_utf16().chain(Some(0)).collect();
    assert_eq!(null_terminated_utf16("C:\\é😀"), expected);
}

#[test]
fn bitmaps_are_bottom_up_and_bgra() {
    let rgba = vec![1, 2, 3, 4, 5, 6, 7, 8];
    assert_eq!(to_bgra_bottom_up(1, 2, &rgba), [7, 6, 5, 8, 3, 2, 1, 4]);
    let dib = dib_of(1, 2, &rgba);
    assert_eq!(dib.len(), DIB_HEADER as usize + 8);
    assert_eq!(dib[..4], DIB_HEADER.to_le_bytes());
    assert_eq!(dib[4..8], 1_i32.to_le_bytes());
    assert_eq!(dib[8..12], 2_i32.to_le_bytes());
    assert_eq!(dib[12..14], [1, 0]);
    assert_eq!(dib[14..16], [32, 0]);
    assert_eq!(dib[16..20], 3_u32.to_le_bytes());
    assert_eq!(dib[20..24], 8_u32.to_le_bytes());
    assert_eq!(dib[40..44], 0x00ff_0000_u32.to_le_bytes());
    assert_eq!(dib[44..48], 0x0000_ff00_u32.to_le_bytes());
    assert_eq!(dib[48..52], 0x0000_00ff_u32.to_le_bytes());
    assert_eq!(dib[52..56], 0xff00_0000_u32.to_le_bytes());
    assert_eq!(dib[124..], [7, 6, 5, 8, 3, 2, 1, 4]);
}

#[test]
fn picture_files_become_bitmaps() {
    let rgba = vec![1, 2, 3, 255, 5, 6, 7, 255];
    let file = picture_file(r"C:\i", 1, 2, &rgba).unwrap();
    assert_eq!(dib_of_file(&file.png).unwrap(), dib_of(1, 2, &rgba));
    assert!(dib_of_file(b"no picture").is_err());
}

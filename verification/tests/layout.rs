use lsix::filename::FilenameMode;
use lsix::image_proc::{
    assemble_output, cache_path, detect_imagemagick, failed_rows, features_line, fingerprint,
    group_headline,
    generate_cache_key, get_cache_dir, get_convert_command, get_montage_command,
    has_image_extension, image_extension_list, images_in_group, is_cache_valid,
    is_image_extension, partition_rows, render_row, select_images, sort_texts, text_less,
    validate_image,
    FilterVerdict, ImageConfig, ImageEntry, ImageMagickMode, LayoutOverrides, RowItem, RowPlan,
    Timestamp,
};
use std::hash::Hasher;

fn entry(path: &str) -> ImageEntry {
    ImageEntry { path: path.to_string(), label: format!("label of {}", path) }
}

fn entries(n: usize) -> Vec<ImageEntry> {
    (0..n).map(|i| entry(&format!("img{:02}.png", i))).collect()
}

fn item(path: &str, secs: u64) -> RowItem {
    RowItem { entry: entry(path), exists: true, modified: Some(Timestamp { secs, nanos: 0 }) }
}

fn paths_of(rows: &Vec<Vec<ImageEntry>>) -> Vec<Vec<String>> {
    rows.iter().map(|r| r.iter().map(|e| e.path.clone()).collect()).collect()
}

fn strings(v: &[&str]) -> Vec<String> {
    v.iter().map(|s| s.to_string()).collect()
}

fn plain_config() -> ImageConfig {
    ImageConfig::from_terminal_width(1920, 256, "white", "black")
}

#[test]
fn test_image_config_from_width() {
    let config = ImageConfig::from_terminal_width(1024, 256, "white", "black");
    assert_eq!(config.tile_width, 360);
    assert_eq!(config.tile_height, 360);
    assert_eq!(config.font_size, 36);
    // The drop shadow is off unless it is asked for.
    assert_eq!(config.shadow, false);
}

#[test]
fn test_image_config_low_color() {
    let config = ImageConfig::from_terminal_width(800, 16, "white", "black");
    assert_eq!(config.shadow, false);
}

#[test]
fn layout_of_a_1920_pixel_terminal() {
    let c = plain_config();
    assert_eq!(c.tile_xspace, 9);
    assert_eq!(c.tile_yspace, 4);
    // 1920 / (360 + 2 * 9 + 1) = 1920 / 379 = 5
    assert_eq!(c.num_tiles_per_row, 5);
    assert_eq!(c.font_size, 36);
    assert_eq!(c.num_colors, 256);
    assert_eq!(c.background, "white");
    assert_eq!(c.foreground, "black");
    assert_eq!(c.font_family, None);
}

#[test]
fn layout_of_a_1024_pixel_terminal() {
    let c = ImageConfig::from_terminal_width(1024, 64, "#282a36", "white");
    assert_eq!(c.tile_xspace, 5);
    assert_eq!(c.tile_yspace, 2);
    // 1024 / (360 + 10 + 1) = 2
    assert_eq!(c.num_tiles_per_row, 2);
    assert_eq!(c.num_colors, 64);
    assert_eq!(c.background, "#282a36");
}

#[test]
fn narrow_terminal_still_holds_one_tile() {
    for width in [0u32, 1, 100, 360, 361] {
        let c = ImageConfig::from_terminal_width(width, 256, "white", "black");
        assert_eq!(c.num_tiles_per_row, 1, "width {}", width);
    }
    let c = ImageConfig::from_terminal_width(362, 256, "white", "black");
    // 362 / (360 + 2 + 1) = 0, rounded up to one tile
    assert_eq!(c.tile_xspace, 1);
    assert_eq!(c.num_tiles_per_row, 1);
    let c = ImageConfig::from_terminal_width(726, 256, "white", "black");
    // 726 / (360 + 6 + 1) = 1
    assert_eq!(c.num_tiles_per_row, 1);
    let c = ImageConfig::from_terminal_width(734, 256, "white", "black");
    assert_eq!(c.num_tiles_per_row, 2);
}

#[test]
fn widest_terminal_does_not_overflow() {
    let o = LayoutOverrides {
        tile_size: Some("4294967295".to_string()),
        colors: None,
        shadow: None,
    };
    let c = ImageConfig::from_terminal_width_with(u32::MAX, 256, "white", "black", &o);
    assert_eq!(c.tile_width, u32::MAX);
    assert_eq!(c.tile_xspace, u32::MAX / 201);
    assert_eq!(c.num_tiles_per_row, 1);
    assert_eq!(c.font_size, u32::MAX / 10);
    let c = ImageConfig::from_terminal_width(u32::MAX, 256, "white", "black");
    assert_eq!(c.num_tiles_per_row, 100);
}

#[test]
fn overrides_take_precedence() {
    let o = LayoutOverrides {
        tile_size: Some("100".to_string()),
        colors: Some("64".to_string()),
        shadow: Some("1".to_string()),
    };
    let c = ImageConfig::from_terminal_width_with(1920, 256, "white", "black", &o);
    assert_eq!((c.tile_width, c.tile_height), (100, 100));
    // 1920 / (100 + 18 + 1) = 16
    assert_eq!(c.num_tiles_per_row, 16);
    assert_eq!(c.font_size, 10);
    assert_eq!(c.num_colors, 64);
    assert!(c.shadow);
}

#[test]
fn unreadable_overrides_fall_back() {
    let o = LayoutOverrides {
        tile_size: Some("big".to_string()),
        colors: Some("many".to_string()),
        shadow: Some("0".to_string()),
    };
    let c = ImageConfig::from_terminal_width_with(1920, 256, "white", "black", &o);
    assert_eq!(c.tile_width, 360);
    // A colour setting that is no number leaves what the terminal has.
    assert_eq!(c.num_colors, 256);
    assert!(!c.shadow);
    let o = LayoutOverrides {
        tile_size: Some("-5".to_string()),
        colors: Some("4294967296".to_string()),
        shadow: Some("".to_string()),
    };
    let c = ImageConfig::from_terminal_width_with(1920, 200, "white", "black", &o);
    assert_eq!(c.tile_width, 360);
    assert_eq!(c.num_colors, 200);
    assert!(c.shadow);
    let o = LayoutOverrides {
        tile_size: Some("+40".to_string()),
        colors: Some("007".to_string()),
        shadow: Some("00".to_string()),
    };
    let c = ImageConfig::from_terminal_width_with(1920, 200, "white", "black", &o);
    assert_eq!(c.tile_width, 40);
    assert_eq!(c.font_size, 10);
    assert_eq!(c.num_colors, 7);
    assert!(c.shadow);
}

#[test]
fn font_size_is_a_tenth_of_the_tile_and_ten_at_least() {
    for (tile, font) in [("0", 10u32), ("99", 10), ("100", 10), ("109", 10), ("110", 11), ("1000", 100)] {
        let o = LayoutOverrides { tile_size: Some(tile.to_string()), colors: None, shadow: None };
        let c = ImageConfig::from_terminal_width_with(1920, 256, "white", "black", &o);
        assert_eq!(c.font_size, font, "tile {}", tile);
    }
}

#[test]
fn montage_options_of_the_default_layout() {
    let c = plain_config();
    assert_eq!(
        c.get_montage_options(5),
        strings(&[
            "-tile",
            "5x1",
            "-geometry",
            "360x360>+9+4",
            "-background",
            "white",
            "-fill",
            "black",
            "-auto-orient",
            "-pointsize",
            "36",
        ])
    );
    assert_eq!(c.get_montage_options(1)[1], "1x1");
    assert_eq!(c.get_convert_arguments(), strings(&["-colors", "256", "sixel:-"]));
}

#[test]
fn montage_options_with_shadow_and_font() {
    let o = LayoutOverrides { tile_size: None, colors: None, shadow: Some("1".to_string()) };
    let mut c = ImageConfig::from_terminal_width_with(1024, 256, "black", "white", &o);
    c.font_family = Some("Helvetica".to_string());
    assert_eq!(
        c.get_montage_options(2),
        strings(&[
            "-tile",
            "2x1",
            "-geometry",
            "360x360>+5+2",
            "-background",
            "black",
            "-fill",
            "white",
            "-auto-orient",
            "-shadow",
            "-font",
            "Helvetica",
            "-pointsize",
            "36",
        ])
    );
}

#[test]
fn five_images_make_one_row() {
    let c = plain_config();
    let rows = partition_rows(&entries(5), c.num_tiles_per_row as usize);
    assert_eq!(
        paths_of(&rows),
        vec![strings(&["img00.png", "img01.png", "img02.png", "img03.png", "img04.png"])]
    );
}

#[test]
fn eleven_images_make_rows_of_five_five_and_one() {
    let c = plain_config();
    let rows = partition_rows(&entries(11), c.num_tiles_per_row as usize);
    let sizes: Vec<usize> = rows.iter().map(|r| r.len()).collect();
    assert_eq!(sizes, vec![5, 5, 1]);
    assert_eq!(rows[2][0].path, "img10.png");
    assert_eq!(rows[2][0].label, "label of img10.png");
    let flat: Vec<String> = rows.iter().flatten().map(|e| e.path.clone()).collect();
    let all: Vec<String> = entries(11).iter().map(|e| e.path.clone()).collect();
    assert_eq!(flat, all);
}

#[test]
fn partition_never_makes_an_empty_row() {
    assert!(partition_rows(&entries(0), 5).is_empty());
    assert_eq!(partition_rows(&entries(1), 5).len(), 1);
    assert_eq!(partition_rows(&entries(10), 5).len(), 2);
    assert_eq!(partition_rows(&entries(3), 1).len(), 3);
    for n in 0..30 {
        for per_row in 1..8 {
            let rows = partition_rows(&entries(n), per_row);
            assert_eq!(rows.len(), (n + per_row - 1) / per_row);
            assert!(rows.iter().all(|r| !r.is_empty() && r.len() <= per_row));
        }
    }
}

#[test]
fn output_follows_the_order_of_the_rows() {
    let rows = vec![Some(vec![1u8, 2]), Some(vec![]), Some(vec![3]), Some(vec![4, 5, 6])];
    assert_eq!(assemble_output(&rows), vec![1, 2, 3, 4, 5, 6]);
    assert!(failed_rows(&rows).is_empty());
    assert!(assemble_output(&vec![]).is_empty());
}

#[test]
fn failed_row_is_skipped_and_the_rest_is_written() {
    let rows = vec![None, Some(vec![1u8, 2]), None, Some(vec![3]), None];
    assert_eq!(assemble_output(&rows), vec![1, 2, 3]);
    assert_eq!(failed_rows(&rows), vec![0, 2, 4]);
}

#[test]
fn fingerprint_is_the_same_for_the_same_row() {
    let c = plain_config();
    let a = vec![item("a.png", 100), item("b.png", 200)];
    let b = vec![
        RowItem {
            entry: ImageEntry { path: "a.png".to_string(), label: "another label".to_string() },
            exists: false,
            modified: Some(Timestamp { secs: 100, nanos: 999 }),
        },
        item("b.png", 200),
    ];
    assert_eq!(fingerprint(&a, &c), fingerprint(&b, &plain_config()));
    assert_eq!(generate_cache_key(&a, &c), generate_cache_key(&b, &c));
    assert_eq!(generate_cache_key(&a, &c), format!("{:x}", fingerprint(&a, &c)));
}

#[test]
fn fingerprint_tells_rows_and_layouts_apart() {
    let c = plain_config();
    let base = fingerprint(&vec![item("a.png", 100), item("b.png", 200)], &c);
    assert_ne!(base, fingerprint(&vec![item("a.png", 101), item("b.png", 200)], &c));
    assert_ne!(base, fingerprint(&vec![item("b.png", 200), item("a.png", 100)], &c));
    assert_ne!(base, fingerprint(&vec![item("a.png", 100)], &c));
    assert_ne!(base, fingerprint(&vec![item("ab.png", 100), item(".png", 200)], &c));
    let mut unknown = item("a.png", 100);
    unknown.modified = None;
    assert_ne!(base, fingerprint(&vec![unknown, item("b.png", 200)], &c));
    let other = ImageConfig::from_terminal_width(1920, 64, "white", "black");
    assert_ne!(base, fingerprint(&vec![item("a.png", 100), item("b.png", 200)], &other));
    let other = ImageConfig::from_terminal_width(1920, 256, "black", "white");
    assert_ne!(base, fingerprint(&vec![item("a.png", 100), item("b.png", 200)], &other));
    let mut shadowed = plain_config();
    shadowed.shadow = true;
    assert_ne!(base, fingerprint(&vec![item("a.png", 100), item("b.png", 200)], &shadowed));
    // The width of the terminal does not count, only what is rendered.
    let mut wider = plain_config();
    wider.num_tiles_per_row = 7;
    wider.tile_xspace = 20;
    assert_eq!(base, fingerprint(&vec![item("a.png", 100), item("b.png", 200)], &wider));
}

#[test]
fn fingerprint_hashes_paths_times_and_layout_in_order() {
    let c = plain_config();
    let mut h = std::collections::hash_map::DefaultHasher::new();
    h.write(b"a.png");
    h.write(&[0xff]);
    h.write(&100u64.to_le_bytes());
    h.write(b"b.png");
    h.write(&[0xff]);
    h.write(&360u32.to_le_bytes());
    h.write(&360u32.to_le_bytes());
    h.write(&256u32.to_le_bytes());
    h.write(b"white");
    h.write(&[0xff]);
    h.write(b"black");
    h.write(&[0xff]);
    h.write(&[0]);
    let mut second = item("b.png", 0);
    second.modified = None;
    assert_eq!(fingerprint(&vec![item("a.png", 100), second], &c), h.finish());
}

#[test]
fn cache_is_valid_when_no_source_is_newer() {
    let at = |secs, nanos| Some(Timestamp { secs, nanos });
    let items = vec![item("a.png", 100), item("b.png", 200)];
    assert!(is_cache_valid(at(200, 0), &items));
    assert!(is_cache_valid(at(300, 0), &items));
    assert!(!is_cache_valid(at(199, 999_999_999), &items));
    assert!(!is_cache_valid(None, &items));
    assert!(is_cache_valid(at(0, 0), &vec![]));
    assert!(!is_cache_valid(None, &vec![]));
}

#[test]
fn cache_compares_nanoseconds_within_a_second() {
    let mut a = item("a.png", 100);
    a.modified = Some(Timestamp { secs: 100, nanos: 500 });
    let items = vec![a];
    assert!(is_cache_valid(Some(Timestamp { secs: 100, nanos: 500 }), &items));
    assert!(is_cache_valid(Some(Timestamp { secs: 100, nanos: 501 }), &items));
    assert!(!is_cache_valid(Some(Timestamp { secs: 100, nanos: 499 }), &items));
    assert!(is_cache_valid(Some(Timestamp { secs: 101, nanos: 0 }), &items));
    assert!(Timestamp { secs: 1, nanos: 9 }.is_at_most(&Timestamp { secs: 2, nanos: 0 }));
    assert!(!Timestamp { secs: 2, nanos: 0 }.is_at_most(&Timestamp { secs: 1, nanos: 9 }));
}

#[test]
fn cache_is_invalid_when_a_source_is_missing() {
    let mut gone = item("b.png", 200);
    gone.exists = false;
    gone.modified = None;
    assert!(!is_cache_valid(Some(Timestamp { secs: 900, nanos: 0 }), &vec![item("a.png", 100), gone]));
    let mut undated = item("b.png", 200);
    undated.modified = None;
    assert!(is_cache_valid(Some(Timestamp { secs: 900, nanos: 0 }), &vec![item("a.png", 100), undated]));
}

#[test]
fn row_is_reused_exactly_when_the_cache_is_current() {
    let c = plain_config();
    let items = vec![item("a.png", 100), item("b.png", 200)];
    assert!(matches!(render_row(&items, &c, Some(Timestamp { secs: 200, nanos: 0 })), RowPlan::Reuse));
    assert!(matches!(
        render_row(&items, &c, Some(Timestamp { secs: 150, nanos: 0 })),
        RowPlan::Render(_, _)
    ));
    assert!(matches!(render_row(&items, &c, None), RowPlan::Render(_, _)));
}

#[test]
fn row_is_rendered_with_its_images_in_order() {
    let c = plain_config();
    let items = vec![item("a.png", 100), item("b.png", 200)];
    match render_row(&items, &c, None) {
        RowPlan::Render(montage, convert) => {
            assert_eq!(
                montage,
                strings(&[
                    "-tile",
                    "2x1",
                    "-geometry",
                    "360x360>+9+4",
                    "-background",
                    "white",
                    "-fill",
                    "black",
                    "-auto-orient",
                    "-pointsize",
                    "36",
                    "-label",
                    "label of a.png",
                    "a.png",
                    "-label",
                    "label of b.png",
                    "b.png",
                    "gif:-",
                ])
            );
            assert_eq!(convert, strings(&["-colors", "256", "sixel:-"]));
        }
        other => panic!("unexpected plan {:?}", other),
    }
}

#[test]
fn row_leaves_out_what_cannot_be_rendered() {
    let c = plain_config();
    let mut gone = item("gone.png", 1);
    gone.exists = false;
    let nameless = item("", 1);
    let items = vec![gone, item("a.png", 100), nameless];
    match render_row(&items, &c, Some(Timestamp { secs: 500, nanos: 0 })) {
        RowPlan::Render(montage, _) => {
            assert_eq!(montage[1], "1x1");
            assert_eq!(
                montage[11..].to_vec(),
                strings(&["-label", "label of a.png", "a.png", "gif:-"])
            );
        }
        other => panic!("unexpected plan {:?}", other),
    }
    let mut gone = item("gone.png", 1);
    gone.exists = false;
    assert!(matches!(render_row(&vec![gone, item("", 1)], &c, None), RowPlan::Empty));
    assert!(matches!(render_row(&vec![], &c, None), RowPlan::Empty));
    assert!(matches!(render_row(&vec![], &c, Some(Timestamp { secs: 0, nanos: 0 })), RowPlan::Reuse));
}

#[test]
fn image_extensions_are_recognised_in_any_case() {
    for name in ["a.jpg", "a.JPG", "b.Jpeg", "c.png", "d.gif", "e.webp", "f.tiff", "g.tif",
        "h.pnm", "i.ppm", "j.pgm", "k.pbm", "l.pam", "m.xbm", "n.xpm", "o.bmp", "p.ico",
        "q.svg", "r.EPS", "dir.d/s.png", "/abs/t.PnG"]
    {
        assert!(has_image_extension(name), "{}", name);
    }
    for name in ["a.txt", "jpg", ".png", "a.png.bak", "a.", "a.jp", "dir.png/readme", "", "a.jpgx"] {
        assert!(!has_image_extension(name), "{}", name);
    }
    assert_eq!(image_extension_list().len(), 18);
    assert!(is_image_extension(&"tif".to_string()));
    assert!(!is_image_extension(&"TIF".to_string()));
    assert!(!is_image_extension(&"".to_string()));
}

#[test]
fn images_are_selected_sorted_and_once() {
    let found = strings(&["b.png", "notes.txt", "a.JPG", "b.png", "c.gif", "a.jpg", "Z.png", "b.png"]);
    assert_eq!(select_images(&found), strings(&["Z.png", "a.JPG", "a.jpg", "b.png", "c.gif"]));
    assert!(select_images(&strings(&["readme", "a.txt"])).is_empty());
    assert!(select_images(&vec![]).is_empty());
}

#[test]
fn texts_sort_by_their_bytes() {
    assert!(text_less("a", "b"));
    assert!(!text_less("b", "a"));
    assert!(!text_less("a", "a"));
    assert!(text_less("", "a"));
    assert!(!text_less("a", ""));
    assert!(!text_less("", ""));
    assert!(text_less("a", "aa"));
    assert!(text_less("Z", "a"));
    assert!(text_less("a10", "a9"));
    assert!(text_less("z", "\u{e9}"));
    assert!(text_less("\u{e9}", "\u{4e2d}"));
}

#[test]
fn group_members_keep_the_order_of_the_entries() {
    let all = entries(5);
    let members = images_in_group(&all, &strings(&["img03.png", "img01.png", "other.png"]));
    let paths: Vec<String> = members.iter().map(|e| e.path.clone()).collect();
    assert_eq!(paths, strings(&["img01.png", "img03.png"]));
    assert!(images_in_group(&all, &vec![]).is_empty());
    assert!(images_in_group(&vec![], &strings(&["img01.png"])).is_empty());
}

#[test]
fn validated_image_gets_its_path_and_label() {
    let e = validate_image("/pics/loop.gif", true, FilterVerdict::NotAsked, false, FilenameMode::Short)
        .unwrap();
    assert_eq!(e.path, "/pics/loop.gif[0]");
    assert_eq!(e.label, "loop.gif");
    let e = validate_image("/pics/loop.gif", true, FilterVerdict::Matches, true, FilenameMode::Long)
        .unwrap();
    assert_eq!(e.path, "/pics/loop.gif");
    assert_eq!(e.label, "/pics/loop.gif");
    assert!(validate_image("a.png", true, FilterVerdict::Unknown, true, FilenameMode::Short).is_some());
    assert!(validate_image("a.png", true, FilterVerdict::Rejected, true, FilenameMode::Short).is_none());
    assert!(validate_image("a.png", false, FilterVerdict::Matches, true, FilenameMode::Short).is_none());
    assert!(validate_image("a.png", false, FilterVerdict::NotAsked, true, FilenameMode::Short).is_none());
}

#[test]
fn montage_programs_by_generation() {
    assert_eq!(detect_imagemagick(true, true), ImageMagickMode::V7);
    assert_eq!(detect_imagemagick(true, false), ImageMagickMode::V7);
    assert_eq!(detect_imagemagick(false, true), ImageMagickMode::V6);
    assert_eq!(detect_imagemagick(false, false), ImageMagickMode::V7);
    assert_eq!(get_montage_command(ImageMagickMode::V7), strings(&["magick", "montage"]));
    assert_eq!(get_montage_command(ImageMagickMode::V6), strings(&["montage"]));
    assert_eq!(get_convert_command(ImageMagickMode::V7), strings(&["magick", "-"]));
    assert_eq!(get_convert_command(ImageMagickMode::V6), strings(&["convert", "-"]));
}

#[test]
fn cache_directory_is_under_the_home_directory() {
    assert_eq!(get_cache_dir(Some("/home/user")), "/home/user/.cache/lsix");
    assert_eq!(get_cache_dir(Some("/home/user/")), "/home/user/.cache/lsix");
    assert_eq!(get_cache_dir(None), "/tmp/lsix");
    assert_eq!(cache_path("/home/user/.cache/lsix", "1f2e"), "/home/user/.cache/lsix/1f2e");
}

#[test]
fn group_headers_name_the_group() {
    assert_eq!(group_headline(1, "beach Images", 12), "Group 1: beach Images (12 images)");
    assert_eq!(group_headline(0, "", 0), "Group 0:  (0 images)");
    let pair = |k: &str, v: &str| (k.to_string(), v.to_string());
    assert_eq!(features_line(&vec![]), "");
    assert_eq!(features_line(&vec![pair("tag", "beach")]), "tag: beach");
    assert_eq!(
        features_line(&vec![pair("tag", "beach"), pair("date", "2024-03-01"), pair("", "")]),
        "tag: beach, date: 2024-03-01, : "
    );
}

#[test]
fn empty_directory_gives_no_rows_and_no_bytes() {
    let images = select_images(&vec![]);
    assert!(images.is_empty());
    let images = select_images(&strings(&["notes.txt", "Makefile", "archive.tar.gz"]));
    assert!(images.is_empty());
    let rows = partition_rows(&vec![], plain_config().num_tiles_per_row as usize);
    assert!(rows.is_empty());
    assert!(assemble_output(&vec![]).is_empty());
}

#[test]
fn single_image_on_a_1024_pixel_terminal() {
    let c = ImageConfig::from_terminal_width(1024, 256, "#282a36", "white");
    let rows = partition_rows(&vec![entry("photo.jpg")], c.num_tiles_per_row as usize);
    assert_eq!(rows.len(), 1);
    assert_eq!(rows[0].len(), 1);
    assert_eq!((c.tile_width, c.tile_height), (360, 360));
    assert!(c.font_size >= 36);
    let items = vec![item("photo.jpg", 10)];
    match render_row(&items, &c, None) {
        RowPlan::Render(montage, _) => {
            assert_eq!(montage[..4].to_vec(), strings(&["-tile", "1x1", "-geometry", "360x360>+5+2"]));
        }
        other => panic!("unexpected plan {:?}", other),
    }
    assert_eq!(assemble_output(&vec![Some(vec![0x1b, b'P', b'q'])]), vec![0x1b, b'P', b'q']);
}

#[test]
fn second_run_over_unchanged_files_reuses_the_cache() {
    let c = plain_config();
    let row = || (0..5).map(|i| item(&format!("img{}.png", i), 1_000 + i)).collect::<Vec<RowItem>>();
    // The first run finds no artifact under the key and renders.
    let first_key = generate_cache_key(&row(), &c);
    assert!(matches!(render_row(&row(), &c, None), RowPlan::Render(_, _)));
    // It caches the bytes at a later time; the second run finds them.
    let written = Timestamp { secs: 2_000, nanos: 0 };
    let second_key = generate_cache_key(&row(), &plain_config());
    assert_eq!(first_key, second_key);
    assert!(matches!(render_row(&row(), &c, Some(written)), RowPlan::Reuse));
    // Touching one file makes the key another one: nothing is found.
    let mut touched = row();
    touched[3].modified = Some(Timestamp { secs: 3_000, nanos: 0 });
    assert_ne!(generate_cache_key(&touched, &c), first_key);
    assert!(matches!(render_row(&touched, &c, Some(written)), RowPlan::Render(_, _)));
}

#[test]
fn texts_are_sorted_like_strings() {
    let cases: Vec<Vec<&str>> = vec![
        vec![],
        vec!["a"],
        vec!["b", "a"],
        vec!["b", "a", "b", "", "ab", "B", "a"],
        vec!["img10.png", "img9.png", "img1.png", "Img2.png", "\u{e9}.png", "z.png"],
        vec!["c", "b", "a", "9", "8", "7", "6", "5", "4", "3", "2", "1", "0"],
    ];
    for case in cases {
        let mut expected = strings(&case);
        expected.sort();
        assert_eq!(sort_texts(strings(&case)), expected);
    }
}

#[test]
fn layout_takes_the_colour_budget_of_the_terminal() {
    for colors in [16u32, 128, 256, 1024, u32::MAX] {
        let c = ImageConfig::from_terminal_width(1920, colors, "white", "black");
        assert_eq!(c.num_colors, colors);
    }
    let o = LayoutOverrides { tile_size: None, colors: Some("512".to_string()), shadow: None };
    let c = ImageConfig::from_terminal_width_with(1920, 256, "white", "black", &o);
    assert_eq!(c.num_colors, 512);
}

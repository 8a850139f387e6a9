use lsix::grouping::{
    calculate_color_histogram, calculate_perceptual_hash, color_group, extract_tags,
    get_dominant_color_name, group_all, group_by_key, group_by_named, group_by_tags,
    group_greedily, is_meaningful_tag, similarity_group, size_bucket, size_group, sort_by_key,
    tag_group, tags_from_parts, time_group, GroupBy, ImageGroup, KeyedGroup, PerceptualHash,
};
use std::hash::Hasher;

fn texts(v: &[&str]) -> Vec<String> {
    v.iter().map(|s| s.to_string()).collect()
}

fn pair(key: &str, path: &str) -> (String, String) {
    (key.to_string(), path.to_string())
}

fn hash(bytes: &[u8]) -> PerceptualHash {
    PerceptualHash { hash: bytes.to_vec(), width: 8, height: 8 }
}

fn keyed(key: &str, members: &[&str]) -> KeyedGroup {
    KeyedGroup { key: key.to_string(), members: texts(members) }
}

fn summary(groups: &Vec<KeyedGroup>) -> Vec<(String, Vec<String>)> {
    groups.iter().map(|g| (g.key.clone(), g.members.clone())).collect()
}

fn features_of(g: &ImageGroup) -> Vec<(String, String)> {
    g.metadata.common_features.clone()
}

#[test]
fn test_extract_tags() {
    let tags = extract_tags("/home/user/Pictures/vacation_beach_2024/photo_001.jpg");
    assert!(tags.contains(&"vacation".to_string()));
    assert!(tags.contains(&"JPG".to_string()));
}

#[test]
fn tags_come_from_directory_file_name_and_extension() {
    assert_eq!(
        extract_tags("/home/user/Pictures/vacation_beach_2024/photo_001.jpg"),
        texts(&["vacation", "beach", "JPG"])
    );
    assert_eq!(
        extract_tags("/pics/Summer Trip/sunset-over.the_sea.final.png"),
        texts(&["Summer", "Trip", "sunset", "over", "the", "sea", "PNG"])
    );
    assert_eq!(extract_tags("cat.gif"), texts(&["cat", "GIF"]));
    assert_eq!(extract_tags("cat"), texts(&["cat"]));
    assert_eq!(extract_tags("/"), Vec::<String>::new());
    assert_eq!(extract_tags(""), Vec::<String>::new());
    assert_eq!(extract_tags("a/b/c.d"), Vec::<String>::new());
    assert_eq!(extract_tags("2024/0001.jpeg"), texts(&["JPEG"]));
}

#[test]
fn tags_from_parts_filter_each_word() {
    assert_eq!(
        tags_from_parts(Some("my holiday"), Some("img_beach_01_ab"), Some("JPG")),
        texts(&["holiday", "beach", "JPG"])
    );
    assert_eq!(tags_from_parts(None, None, None), Vec::<String>::new());
    assert_eq!(tags_from_parts(None, Some("DSC.version.copy"), Some("7Z")), texts(&["7Z"]));
    assert_eq!(tags_from_parts(None, None, Some("GZ")), Vec::<String>::new());
}

#[test]
fn meaningful_tags_hold_letters_and_say_something() {
    for tag in ["vacation", "JPG", "a1b", "x42", ".ab", "été", "Copyright", "images", "a b"] {
        assert!(is_meaningful_tag(tag), "{:?}", tag);
    }
    for tag in ["", "2024", "001", "ab", "a", "img", "IMG", "Photo", "pic", "image", "dsc", "sam",
        "final", "COPY", "version", "...", "---", "1.5", "٣٤٥"]
    {
        assert!(!is_meaningful_tag(tag), "{:?}", tag);
    }
}

#[test]
fn short_tags_count_by_their_bytes() {
    // Two letters of two bytes each are four bytes: not short.
    assert!(is_meaningful_tag("éé"));
    assert!(!is_meaningful_tag("é"));
    assert!(is_meaningful_tag("a1"));
    assert!(is_meaningful_tag(".a"));
}

#[test]
fn hamming_distance_counts_the_bits_of_the_first_hash() {
    assert_eq!(hash(&[0xff; 8]).hamming_distance(&hash(&[0xff; 8])), 64);
    assert_eq!(hash(&[0x00; 8]).hamming_distance(&hash(&[0xff; 8])), 0);
    assert_eq!(hash(&[0x01, 0x03, 0x07, 0x80]).hamming_distance(&hash(&[0; 4])), 7);
    assert_eq!(hash(&[0xaa, 0x55]).hamming_distance(&hash(&[0x12, 0x34])), 8);
}

#[test]
fn hamming_distance_stops_at_the_shorter_hash() {
    assert_eq!(hash(&[0xff, 0xff, 0xff]).hamming_distance(&hash(&[0])), 8);
    assert_eq!(hash(&[0xff]).hamming_distance(&hash(&[0, 0, 0])), 8);
    assert_eq!(hash(&[]).hamming_distance(&hash(&[1, 2])), 0);
    assert_eq!(hash(&[1, 2]).hamming_distance(&hash(&[])), 0);
}

#[test]
fn all_images_make_one_group() {
    let g = group_all(texts(&["a.png", "b.png"]));
    assert_eq!(g.id, "all");
    assert_eq!(g.name, "All Images");
    assert_eq!(g.images, texts(&["a.png", "b.png"]));
    assert_eq!(g.representative, "a.png");
    assert_eq!(g.metadata.group_type, "none");
    assert_eq!(g.metadata.count, 2);
    assert!(g.metadata.common_features.is_empty());
    let g = group_all(Vec::new());
    assert_eq!(g.representative, "");
    assert_eq!(g.metadata.count, 0);
    assert_ne!(GroupBy::Ungrouped, GroupBy::Tags);
}

#[test]
fn keys_group_paths_in_order_of_first_appearance() {
    let pairs = vec![
        pair("b", "1.png"),
        pair("a", "2.png"),
        pair("b", "3.png"),
        pair("c", "4.png"),
        pair("a", "5.png"),
        pair("b", "1.png"),
    ];
    assert_eq!(
        summary(&group_by_key(&pairs)),
        vec![
            ("b".to_string(), texts(&["1.png", "3.png", "1.png"])),
            ("a".to_string(), texts(&["2.png", "5.png"])),
            ("c".to_string(), texts(&["4.png"])),
        ]
    );
    assert!(group_by_key(&Vec::new()).is_empty());
}

#[test]
fn groups_sort_by_their_keys() {
    let groups = vec![
        keyed("2024-03-01", &["c.png"]),
        keyed("2023-12-31", &["a.png", "b.png"]),
        keyed("2024-01-15", &["d.png"]),
        keyed("2023-12-31", &["e.png"]),
    ];
    assert_eq!(
        summary(&sort_by_key(groups)),
        vec![
            ("2023-12-31".to_string(), texts(&["a.png", "b.png"])),
            ("2023-12-31".to_string(), texts(&["e.png"])),
            ("2024-01-15".to_string(), texts(&["d.png"])),
            ("2024-03-01".to_string(), texts(&["c.png"])),
        ]
    );
    assert!(sort_by_key(Vec::new()).is_empty());
}

#[test]
fn tag_groups_are_named_after_their_tags() {
    let g = tag_group(keyed("Summer Trip", &["a.png", "b.png"]));
    assert_eq!(g.id, "tag_summer_trip");
    assert_eq!(g.name, "Summer Trip Images");
    assert_eq!(g.images, texts(&["a.png", "b.png"]));
    assert_eq!(g.representative, "a.png");
    assert_eq!(g.metadata.group_type, "tags");
    assert_eq!(g.metadata.count, 2);
    assert_eq!(features_of(&g), vec![pair("tag", "Summer Trip")]);
}

#[test]
fn size_and_time_groups_are_named_after_their_keys() {
    let g = size_group(keyed("800x600", &["a.png"]));
    assert_eq!(g.id, "size_800_600");
    assert_eq!(g.name, "800x600 Images");
    assert_eq!(g.metadata.group_type, "size");
    assert_eq!(features_of(&g), vec![pair("resolution", "800x600")]);
    let g = time_group(keyed("2024-03-01", &["a.png", "b.png"]));
    assert_eq!(g.id, "date_20240301");
    assert_eq!(g.name, "2024-03-01 Images");
    assert_eq!(g.metadata.group_type, "time");
    assert_eq!(g.metadata.count, 2);
    assert_eq!(features_of(&g), vec![pair("date", "2024-03-01")]);
}

#[test]
fn similarity_and_colour_groups_are_numbered() {
    let g = similarity_group(0, texts(&["a.png"]));
    assert_eq!(g.id, "similarity_0");
    assert_eq!(g.name, "Similar Group 1");
    assert_eq!(g.metadata.group_type, "similarity");
    assert!(g.metadata.common_features.is_empty());
    let g = similarity_group(u32::MAX, Vec::new());
    assert_eq!(g.id, "similarity_4294967295");
    assert_eq!(g.name, "Similar Group 4294967296");
    let g = color_group(12, texts(&["a.png", "b.png"]));
    assert_eq!(g.id, "color_12");
    assert_eq!(g.name, "Color Images");
    assert_eq!(g.metadata.group_type, "color");
    assert_eq!(features_of(&g), vec![pair("dominant_color", "Color")]);
    assert_eq!(get_dominant_color_name(&texts(&["a.png"])), "Color");
}

#[test]
fn sizes_fall_into_buckets_of_a_hundred() {
    assert_eq!(size_bucket(800, 600), "800x600");
    assert_eq!(size_bucket(899, 601), "800x600");
    assert_eq!(size_bucket(99, 0), "0x0");
    assert_eq!(size_bucket(u32::MAX, 100), "4294967200x100");
}

#[test]
fn images_are_grouped_by_each_of_their_tags() {
    let groups = group_by_tags(&texts(&[
        "/pics/beach/sunset_one.jpg",
        "/pics/city/sunset_two.png",
        "/pics/beach/waves.jpg",
    ]));
    let shape: Vec<(String, String, Vec<String>)> =
        groups.iter().map(|g| (g.id.clone(), g.name.clone(), g.images.clone())).collect();
    assert_eq!(
        shape,
        vec![
            (
                "tag_beach".to_string(),
                "beach Images".to_string(),
                texts(&["/pics/beach/sunset_one.jpg", "/pics/beach/waves.jpg"])
            ),
            (
                "tag_sunset".to_string(),
                "sunset Images".to_string(),
                texts(&["/pics/beach/sunset_one.jpg", "/pics/city/sunset_two.png"])
            ),
            ("tag_one".to_string(), "one Images".to_string(), texts(&["/pics/beach/sunset_one.jpg"])),
            (
                "tag_jpg".to_string(),
                "JPG Images".to_string(),
                texts(&["/pics/beach/sunset_one.jpg", "/pics/beach/waves.jpg"])
            ),
            ("tag_city".to_string(), "city Images".to_string(), texts(&["/pics/city/sunset_two.png"])),
            ("tag_two".to_string(), "two Images".to_string(), texts(&["/pics/city/sunset_two.png"])),
            ("tag_png".to_string(), "PNG Images".to_string(), texts(&["/pics/city/sunset_two.png"])),
            ("tag_waves".to_string(), "waves Images".to_string(), texts(&["/pics/beach/waves.jpg"])),
        ]
    );
    assert!(groups.iter().all(|g| g.metadata.group_type == "tags"
        && g.metadata.count == g.images.len()
        && g.representative == g.images[0]));
    assert!(group_by_tags(&Vec::new()).is_empty());
}

fn table(n: usize, pairs: &[(usize, usize)]) -> Vec<Vec<bool>> {
    let mut t = vec![vec![false; n]; n];
    for &(a, b) in pairs {
        t[a][b] = true;
        t[b][a] = true;
    }
    t
}

#[test]
fn strategies_are_read_from_their_names() {
    assert_eq!(group_by_named("similarity"), GroupBy::Similarity);
    assert_eq!(group_by_named("color"), GroupBy::Color);
    assert_eq!(group_by_named("size"), GroupBy::Size);
    assert_eq!(group_by_named("time"), GroupBy::Time);
    assert_eq!(group_by_named("tags"), GroupBy::Tags);
    assert_eq!(group_by_named("none"), GroupBy::Ungrouped);
    assert_eq!(group_by_named(""), GroupBy::Ungrouped);
    assert_eq!(group_by_named("Tags"), GroupBy::Ungrouped);
}

#[test]
fn likeness_groups_follow_their_leaders() {
    // 0 is like 2 and 3; 1 is like 3 and 4; 3 is like 5.
    let t = table(6, &[(0, 2), (0, 3), (1, 3), (1, 4), (3, 5)]);
    assert_eq!(group_greedily(&t), vec![vec![0, 2, 3], vec![1, 4], vec![5]]);
    assert_eq!(group_greedily(&table(3, &[])), vec![vec![0], vec![1], vec![2]]);
    assert_eq!(group_greedily(&table(3, &[(0, 1), (0, 2), (1, 2)])), vec![vec![0, 1, 2]]);
    assert_eq!(group_greedily(&table(4, &[(1, 2), (2, 3)])), vec![vec![0], vec![1, 2], vec![3]]);
    assert!(group_greedily(&Vec::new()).is_empty());
}

#[test]
fn likeness_is_read_from_the_row_of_the_leader() {
    // The table need not be symmetric, square or marked on its diagonal.
    let t = vec![vec![true, false, true], vec![true, true], vec![], vec![true, true, true, true]];
    assert_eq!(group_greedily(&t), vec![vec![0, 2], vec![1], vec![3]]);
    let t = vec![vec![false, true, true, true], vec![], vec![], vec![]];
    assert_eq!(group_greedily(&t), vec![vec![0, 1, 2, 3]]);
}

#[test]
fn every_image_is_in_one_likeness_group() {
    for seed in 0..50u64 {
        let n = (seed % 9) as usize;
        let mut state = seed.wrapping_mul(0x9e3779b97f4a7c15) | 1;
        let mut t = vec![vec![false; n]; n];
        for a in 0..n {
            for b in 0..n {
                state ^= state << 13;
                state ^= state >> 7;
                state ^= state << 17;
                t[a][b] = state % 3 == 0;
            }
        }
        let groups = group_greedily(&t);
        let mut seen: Vec<usize> = groups.iter().flatten().copied().collect();
        seen.sort();
        assert_eq!(seen, (0..n).collect::<Vec<usize>>());
        for (g, group) in groups.iter().enumerate() {
            assert!(group.windows(2).all(|w| w[0] < w[1]));
            for &member in &group[1..] {
                assert!(t[group[0]][member]);
                assert!(groups[..g].iter().all(|earlier| !t[earlier[0]][member]));
            }
            assert!(groups[..g].iter().all(|earlier| earlier[0] < group[0] && !t[earlier[0]][group[0]]));
        }
    }
}

#[test]
fn perceptual_hash_repeats_a_byte_of_the_path_hash() {
    let mut h = std::collections::hash_map::DefaultHasher::new();
    h.write(b"/pics/a.png");
    h.write(&[0xff]);
    let byte = h.finish() as u8;
    let hash = calculate_perceptual_hash("/pics/a.png", 800, 600);
    assert_eq!(hash.hash, vec![byte; 8]);
    assert_eq!((hash.width, hash.height), (800, 600));
    let again = calculate_perceptual_hash("/pics/a.png", 1, 2);
    assert_eq!(hash.hash, again.hash);
    assert_eq!(hash.hamming_distance(&again), 8 * byte.count_ones());
}

#[test]
fn histogram_counts_the_pixels_of_the_lines_that_name_red() {
    let text = "     120: (255,0,0) #FF0000 red\n      30: (0,0,255) #0000FF blue\n       7: (139,0,0) #8B0000 darkred\n";
    // A count that is followed by a colon is no number: it is not counted.
    let h = calculate_color_histogram(text);
    assert_eq!(h.total_pixels, 0);
    let h = calculate_color_histogram("120 (255,0,0) red\n30 (0,0,255) blue\n  7 darkred\n");
    assert_eq!(h.total_pixels, 127);
    assert!(h.red.iter().chain(h.green.iter()).chain(h.blue.iter()).all(|&n| n == 0));
    assert_eq!(calculate_color_histogram("").total_pixels, 0);
    assert_eq!(calculate_color_histogram("red").total_pixels, 0);
    assert_eq!(calculate_color_histogram("5 red\r\n6 red").total_pixels, 11);
    assert_eq!(calculate_color_histogram("5: red\n6 red\n-1 red\n4294967296 red").total_pixels, 6);
    assert_eq!(calculate_color_histogram("4294967295 red\n4294967295 red").total_pixels, 8589934590);
    assert_eq!(calculate_color_histogram("99 Red\n1 bored 5").total_pixels, 1);
}

use lsix::filename::{
    filename_mode_named, halve_string, label_for, mark_first_frame, process_image_path, process_label,
    process_label_with_mode, FilenameMode,
};

#[test]
fn test_process_label_simple() {
    assert_eq!(process_label("test.jpg"), "test.jpg");
}

#[test]
fn test_process_label_with_prefix() {
    assert_eq!(process_label("file://test.jpg"), "test.jpg");
}

#[test]
fn test_process_label_with_frame_suffix() {
    assert_eq!(process_label("animated.gif[0]"), "animated.gif");
}

#[test]
fn test_process_label_escape_chars() {
    assert_eq!(process_label("test%file.jpg"), "test%%file.jpg");
    assert_eq!(process_label("test\\file.jpg"), "test\\\\file.jpg");
    assert_eq!(process_label("test@file.jpg"), "test\\@file.jpg");
}

#[test]
fn test_halve_string() {
    assert_eq!(halve_string("short", 10), "short");
    assert_eq!(
        halve_string("verylongfilename", 5),
        "very\nlong\nfile\nname"
    );
}

#[test]
fn test_process_image_path() {
    assert_eq!(process_image_path("test.gif", true), "test.gif");

    assert_eq!(process_image_path("test.gif", false), "test.gif[0]");
    assert_eq!(process_image_path("test.webp", false), "test.webp[0]");
    assert_eq!(process_image_path("test.jpg", false), "test.jpg");
}

#[test]
fn test_short_mode() {
    assert_eq!(
        process_label_with_mode("/path/to/image.jpg", FilenameMode::Short),
        "image.jpg"
    );
}

#[test]
fn test_long_mode() {
    assert_eq!(
        process_label_with_mode("/path/to/image.jpg", FilenameMode::Long),
        "/path/to/image.jpg"
    );
}

#[test]
fn process_image_path_ignores_case_of_extension() {
    assert_eq!(process_image_path("Loop.GIF", false), "Loop.GIF[0]");
    assert_eq!(process_image_path("Loop.WebP", false), "Loop.WebP[0]");
    assert_eq!(process_image_path("Loop.GIF", true), "Loop.GIF");
}

#[test]
fn mark_first_frame_goes_by_the_lower_case_path() {
    assert_eq!(mark_first_frame("A.GIF", "a.gif", false), "A.GIF[0]");
    assert_eq!(mark_first_frame("A.GIF", "A.GIF", false), "A.GIF");
    assert_eq!(mark_first_frame("a.png", "a.png", false), "a.png");
}

#[test]
fn label_breaks_long_names_into_lines() {
    // 16 characters: one cut in the middle.
    assert_eq!(label_for("abcdefgh12345678", FilenameMode::Short), "abcdefgh\n12345678");
    // 15 characters fit on one line.
    assert_eq!(label_for("abcdefgh1234567", FilenameMode::Short), "abcdefgh1234567");
    // 31 characters: halves of 15 and 16, the second cut again.
    assert_eq!(
        label_for("aaaaaaaaaaaaaaabbbbbbbbcccccccc", FilenameMode::Short),
        "aaaaaaaaaaaaaaa\nbbbbbbbb\ncccccccc"
    );
    assert_eq!(
        process_label("/some/where/aaaaaaaaaaaaaaabbbbbbbbcccccccc"),
        "aaaaaaaaaaaaaaa\nbbbbbbbb\ncccccccc"
    );
}

#[test]
fn long_label_stays_in_one_line() {
    assert_eq!(
        label_for("aaaaaaaaaaaaaaabbbbbbbbcccccccc", FilenameMode::Long),
        "aaaaaaaaaaaaaaabbbbbbbbcccccccc"
    );
    assert_eq!(
        process_label_with_mode("file:///a/b%c/d@e.gif[0]", FilenameMode::Long),
        "/a/b%%c/d\\@e.gif"
    );
}

#[test]
fn label_masks_control_characters() {
    assert_eq!(label_for("a\tb\u{7f}c", FilenameMode::Short), "a?b?c");
    assert_eq!(label_for("a b\u{80}", FilenameMode::Short), "a b\u{80}");
    assert_eq!(label_for("\u{0}\u{1f} ", FilenameMode::Long), "?? ");
}

#[test]
fn label_strips_every_leading_colon_and_repeated_decoration() {
    assert_eq!(label_for("::file://file://x.gif[0][0]", FilenameMode::Short), "x.gif");
    // The colons go before the prefix, never after it.
    assert_eq!(label_for("file://:x", FilenameMode::Short), ":x");
    assert_eq!(label_for("[0]", FilenameMode::Short), "");
    assert_eq!(label_for("a[0]b", FilenameMode::Short), "a[0]b");
}

#[test]
fn label_escapes_in_order() {
    assert_eq!(label_for("%@\\", FilenameMode::Short), "%%\\@\\\\");
}

#[test]
fn short_label_of_a_path_without_final_component_shows_the_path() {
    assert_eq!(process_label_with_mode("/", FilenameMode::Short), "/");
    assert_eq!(process_label_with_mode("..", FilenameMode::Short), "..");
}

#[test]
fn halve_string_counts_characters() {
    assert_eq!(halve_string("", 1), "");
    assert_eq!(halve_string("ab", 1), "a\nb");
    assert_eq!(halve_string("abc", 1), "a\nb\nc");
    assert_eq!(halve_string("abcde", 2), "ab\nc\nde");
}

#[test]
fn modes_are_read_from_their_names() {
    assert_eq!(filename_mode_named("long"), FilenameMode::Long);
    assert_eq!(filename_mode_named("short"), FilenameMode::Short);
    assert_eq!(filename_mode_named("Long"), FilenameMode::Short);
    assert_eq!(filename_mode_named(""), FilenameMode::Short);
}

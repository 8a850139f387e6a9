use lsix::terminal::{
    autodetect, detect_colors, detect_colorscheme, detect_geometry, detect_sixel,
    graphics_assured_by, known_graphics_terminal, next_query, parse_color_reply,
    parse_width_reply, parse_width_setting, query_sequence, query_timeout_ms,
    response_complete, response_reports_reverse_video, response_reports_sixel, term_is_yaft,
    ProbeEnvironment, ProbeError, Query, Replies, TerminalConfig,
};

fn env(term: &str) -> ProbeEnvironment {
    ProbeEnvironment {
        term: term.to_string(),
        force_graphics: false,
        force_width: None,
        force_background: None,
        force_foreground: None,
        skip_queries: false,
        colors: None,
        columns: None,
    }
}

fn some(s: &str) -> Option<String> {
    Some(s.to_string())
}

/// Answers every question as a terminal would that knows the given replies.
fn probe(e: &ProbeEnvironment, answer: &dyn Fn(Query) -> Vec<u8>) -> (Replies, Vec<Query>) {
    let mut replies = Replies::none();
    let mut asked = Vec::new();
    while let Some(q) = next_query(e, &replies) {
        assert!(!asked.contains(&q), "{:?} asked twice", q);
        asked.push(q);
        replies.record(q, answer(q));
    }
    (replies, asked)
}

fn vt340(q: Query) -> Vec<u8> {
    match q {
        Query::Attributes => b"\x1b[?63;1;2;4;6;9;15;22c".to_vec(),
        Query::SixelGeometry => b"\x1b[?2;0;800;480S".to_vec(),
        Query::WindowSize => b"\x1b[4;600;1000t".to_vec(),
        Query::Background => b"\x1b]11;rgb:1c1c/2d2d/3e3e\x1b\\".to_vec(),
        Query::Foreground => b"\x1b]10;rgb:ffff/eeee/dddd\x1b\\".to_vec(),
        Query::ReverseVideo => b"\x1b[?5;2$y".to_vec(),
    }
}

fn silent(_q: Query) -> Vec<u8> {
    Vec::new()
}

#[test]
fn default_terminal_config() {
    let c = TerminalConfig::default();
    assert!(!c.has_sixel);
    assert_eq!(c.num_colors, 16);
    assert_eq!(c.width, 1024);
    assert_eq!(c.background, "white");
    assert_eq!(c.foreground, "black");
}

#[test]
fn questions_are_escape_sequences() {
    assert_eq!(query_sequence(Query::Attributes), b"\x1b[c");
    assert_eq!(query_sequence(Query::SixelGeometry), b"\x1b[?2;1;0S");
    assert_eq!(query_sequence(Query::WindowSize), b"\x1b[14t");
    assert_eq!(query_sequence(Query::Background), b"\x1b]11;?\x1b\\");
    assert_eq!(query_sequence(Query::Foreground), b"\x1b]10;?\x1b\\");
    assert_eq!(query_sequence(Query::ReverseVideo), b"\x1b[?5$p");
}

#[test]
fn questions_have_hard_deadlines() {
    assert_eq!(query_timeout_ms(Query::Attributes), 50);
    for q in [Query::SixelGeometry, Query::WindowSize, Query::Background, Query::Foreground,
        Query::ReverseVideo]
    {
        assert_eq!(query_timeout_ms(q), 250);
    }
}

#[test]
fn reading_stops_at_the_byte_that_ends_the_reply() {
    assert!(response_complete(Query::Attributes, &b"\x1b[?63;4c".to_vec()));
    assert!(!response_complete(Query::Attributes, &b"\x1b[?63;4".to_vec()));
    assert!(!response_complete(Query::Attributes, &Vec::new()));
    assert!(response_complete(Query::SixelGeometry, &b"\x1b[?2;0;800;480S".to_vec()));
    assert!(response_complete(Query::WindowSize, &b"\x1b[4;600;1000t".to_vec()));
    // A colour may hold the letter c: it does not end the reply.
    assert!(!response_complete(Query::Background, &b"\x1b]11;rgb:1c".to_vec()));
    assert!(response_complete(Query::Background, &b"\x1b]11;rgb:1c1c/2d2d/3e3e\x1b\\".to_vec()));
    assert!(response_complete(Query::Foreground, &b"\\".to_vec()));
    assert!(response_complete(Query::ReverseVideo, &b"\x1b[?5;2$y".to_vec()));
    assert!(!response_complete(Query::ReverseVideo, &b"\x1b[?5;2$".to_vec()));
}

#[test]
fn yaft_and_known_terminals_need_no_probe() {
    assert!(term_is_yaft("yaft-256color"));
    assert!(!term_is_yaft("my-yaft"));
    assert!(!term_is_yaft("yaf"));
    for term in ["xterm", "xterm-256color", "mlterm", "wezterm", "foot", "foot-extra", "contour",
        "xterm-kitty", "alacritty", "mintty", "cygwin"]
    {
        assert!(known_graphics_terminal(term), "{}", term);
        assert!(graphics_assured_by(&env(term)), "{}", term);
    }
    assert!(graphics_assured_by(&env("XTERM")));
    assert!(graphics_assured_by(&env("Alacritty")));
    assert!(!known_graphics_terminal("XTERM"));
    for term in ["", "vt100", "linux", "screen", "tmux-256color", "xter", "foo"] {
        assert!(!graphics_assured_by(&env(term)), "{}", term);
    }
    let mut forced = env("vt100");
    forced.force_graphics = true;
    assert!(graphics_assured_by(&forced));
}

#[test]
fn attributes_list_graphics_as_code_4() {
    assert!(response_reports_sixel(&b"\x1b[?63;1;2;4;6;9;15;22c".to_vec()));
    assert!(response_reports_sixel(&b"\x1b[?4c".to_vec()));
    assert!(response_reports_sixel(&b"\x1b[?62;4".to_vec()));
    assert!(response_reports_sixel(&b"4".to_vec()));
    assert!(!response_reports_sixel(&b"\x1b[?63;1;2;6;9;15;22c".to_vec()));
    assert!(!response_reports_sixel(&b"\x1b[?64;14;44c".to_vec()));
    assert!(!response_reports_sixel(&b"\x1b[?1;2c".to_vec()));
    assert!(!response_reports_sixel(&Vec::new()));
    assert!(!response_reports_sixel(&vec![0xff, b';', 0xfe]));
}

#[test]
fn terminal_without_graphics_is_an_error() {
    let e = env("vt100");
    let (replies, asked) = probe(&e, &|q| match q {
        Query::Attributes => b"\x1b[?1;2c".to_vec(),
        other => vt340(other),
    });
    assert_eq!(asked, vec![Query::Attributes]);
    assert_eq!(detect_sixel(&e, &replies), Err(ProbeError::EnvironmentUnsupported));
    assert_eq!(autodetect(&e, &replies).unwrap_err(), ProbeError::EnvironmentUnsupported);
    let (replies, asked) = probe(&e, &silent);
    assert_eq!(asked, vec![Query::Attributes]);
    assert!(autodetect(&e, &replies).is_err());
    assert!(autodetect(&e, &Replies::none()).is_err());
    let text = ProbeError::EnvironmentUnsupported.message();
    assert!(text.contains("sixel"));
    assert!(text.contains("FORCE_GRAPHICS=1"));
}

#[test]
fn unknown_terminal_is_probed_for_everything() {
    let e = env("vt340");
    let (replies, asked) = probe(&e, &vt340);
    assert_eq!(
        asked,
        vec![
            Query::Attributes,
            Query::Background,
            Query::Foreground,
            Query::ReverseVideo,
            Query::SixelGeometry,
        ]
    );
    let c = autodetect(&e, &replies).unwrap();
    assert!(c.has_sixel);
    assert_eq!(c.num_colors, 256);
    assert_eq!(c.width, 800);
    assert_eq!(c.background, "#1c1c2d2d3e3e");
    assert_eq!(c.foreground, "#ffffeeeedddd");
}

#[test]
fn known_terminal_skips_the_attributes() {
    let e = env("xterm-256color");
    let (replies, asked) = probe(&e, &vt340);
    assert_eq!(asked[0], Query::Background);
    assert!(!asked.contains(&Query::Attributes));
    assert_eq!(detect_sixel(&e, &replies), Ok(true));
    assert_eq!(detect_sixel(&e, &Replies::none()), Ok(true));
}

#[test]
fn silent_terminal_falls_back_to_defaults() {
    let e = env("xterm");
    let (replies, asked) = probe(&e, &silent);
    assert_eq!(asked, vec![Query::Background, Query::SixelGeometry, Query::WindowSize]);
    let c = autodetect(&e, &replies).unwrap();
    assert_eq!(c.width, 1920);
    assert_eq!(c.num_colors, 256);
    assert_eq!(c.background, "#282a36");
    assert_eq!(c.foreground, "white");
}

#[test]
fn skipping_queries_asks_nothing() {
    let mut e = env("xterm");
    e.skip_queries = true;
    assert_eq!(next_query(&e, &Replies::none()), None);
    let mut replies = Replies::none();
    for q in [Query::Attributes, Query::SixelGeometry, Query::WindowSize, Query::Background,
        Query::Foreground, Query::ReverseVideo]
    {
        replies.record(q, vt340(q));
    }
    // Replies that were not asked for do not count.
    let c = autodetect(&e, &replies).unwrap();
    assert_eq!(c.width, 1920);
    assert_eq!(c.background, "#282a36");
    assert_eq!(c.foreground, "white");
    let mut e = env("vt340");
    e.skip_queries = true;
    assert!(autodetect(&e, &replies).is_err());
    e.force_graphics = true;
    assert!(autodetect(&e, &replies).is_ok());
}

#[test]
fn forced_width_takes_precedence() {
    let mut e = env("xterm");
    e.force_width = some("1234");
    e.columns = some("80");
    let (replies, asked) = probe(&e, &vt340);
    assert!(!asked.contains(&Query::SixelGeometry));
    assert!(!asked.contains(&Query::WindowSize));
    assert_eq!(detect_geometry(&e, &replies), 1234);
    e.force_width = some("wide");
    let (replies, asked) = probe(&e, &vt340);
    assert!(asked.contains(&Query::SixelGeometry));
    assert_eq!(detect_geometry(&e, &replies), 800);
    e.force_width = some("0");
    assert_eq!(detect_geometry(&e, &replies), 800);
}

#[test]
fn width_comes_from_the_window_when_the_graphics_area_tells_none() {
    let e = env("xterm");
    let (replies, asked) = probe(&e, &|q| match q {
        Query::SixelGeometry => b"\x1b[?2;3;0S".to_vec(),
        other => vt340(other),
    });
    assert_eq!(asked.last(), Some(&Query::WindowSize));
    assert_eq!(detect_geometry(&e, &replies), 1000);
}

#[test]
fn width_falls_back_to_columns_and_then_to_1920() {
    let mut e = env("xterm");
    let (replies, _) = probe(&e, &silent);
    assert_eq!(detect_geometry(&e, &replies), 1920);
    e.columns = some("80");
    assert_eq!(detect_geometry(&e, &replies), 960);
    e.columns = some("1");
    assert_eq!(detect_geometry(&e, &replies), 12);
    e.columns = some("0");
    assert_eq!(detect_geometry(&e, &replies), 1920);
    e.columns = some("eighty");
    assert_eq!(detect_geometry(&e, &replies), 1920);
    e.columns = some("357913941");
    assert_eq!(detect_geometry(&e, &replies), 4294967292);
    e.columns = some("357913942");
    assert_eq!(detect_geometry(&e, &replies), 1920);
}

#[test]
fn width_replies_are_read_by_their_third_field() {
    assert_eq!(parse_width_reply(&b"\x1b[?2;0;800;480S".to_vec(), 'S'), Some(800));
    assert_eq!(parse_width_reply(&b"\x1b[?2;0;800S".to_vec(), 'S'), Some(800));
    assert_eq!(parse_width_reply(&b"\x1b[4;600;1000t".to_vec(), 't'), Some(1000));
    assert_eq!(parse_width_reply(&b"\x1b[4;600;1000ttt".to_vec(), 't'), Some(1000));
    assert_eq!(parse_width_reply(&b"\x1b[4;600;1000t".to_vec(), 'S'), None);
    assert_eq!(parse_width_reply(&b"\x1b[?2;0;0S".to_vec(), 'S'), None);
    assert_eq!(parse_width_reply(&b"\x1b[?2;0S".to_vec(), 'S'), None);
    assert_eq!(parse_width_reply(&b"\x1b[?2;0;;S".to_vec(), 'S'), None);
    assert_eq!(parse_width_reply(&b"\x1b[?2;0;4294967296S".to_vec(), 'S'), None);
    assert_eq!(parse_width_reply(&b"\x1b[?2;0;4294967295S".to_vec(), 'S'), Some(4294967295));
    assert_eq!(parse_width_reply(&Vec::new(), 'S'), None);
    assert_eq!(parse_width_setting(&some("640")), Some(640));
    assert_eq!(parse_width_setting(&some(" 640")), None);
    assert_eq!(parse_width_setting(&None), None);
}

#[test]
fn colours_of_the_environment() {
    let mut e = env("xterm");
    assert_eq!(detect_colors(&e), 256);
    e.colors = some("1024");
    assert_eq!(detect_colors(&e), 1024);
    e.colors = some("16");
    assert_eq!(detect_colors(&e), 16);
    e.colors = some("15");
    assert_eq!(detect_colors(&e), 256);
    e.colors = some("lots");
    assert_eq!(detect_colors(&e), 256);
    assert_eq!(detect_colors(&env("yaft-256color")), 256);
}

#[test]
fn colour_replies_are_read_as_hexadecimal() {
    let read = |reply: &[u8]| parse_color_reply(&reply.to_vec());
    assert_eq!(read(b"\x1b]11;rgb:1c1c/2d2d/3e3e\x1b\\"), some("#1c1c2d2d3e3e"));
    assert_eq!(read(b"\x1b]11;rgb:1c1c/2d2d/3e3e\x07"), some("#1c1c2d2d3e3e"));
    assert_eq!(read(b"\x1b]10;rgb:FF/00/7f\x1b\\"), some("#FF007f"));
    assert_eq!(read(b"rgb:a/b/c"), some("#abc"));
    assert_eq!(read(b"rgb:a/b/c/d"), some("#abc"));
    assert_eq!(read(b"xrgb:rgb:a/b/c"), None);
    assert_eq!(read(b"\x1b]11;rgb:1c1c/2d2d\x1b\\"), None);
    assert_eq!(read(b"\x1b]11;rgb:1c1c//3e3e\x1b\\"), None);
    assert_eq!(read(b"\x1b]11;rgb:1c1c/2d2d/\x1b\\"), None);
    assert_eq!(read(b"\x1b]11;rgb:1c1g/2d2d/3e3e\x1b\\"), None);
    assert_eq!(read(b"\x1b]11;1c1c/2d2d/3e3e\x1b\\"), None);
    assert_eq!(read(b""), None);
}

#[test]
fn reverse_video_exchanges_the_colours() {
    assert!(response_reports_reverse_video(&b"\x1b[?5;1$y".to_vec()));
    assert!(response_reports_reverse_video(&b"\x1b[?5;3$y".to_vec()));
    assert!(!response_reports_reverse_video(&b"\x1b[?5;2$y".to_vec()));
    assert!(!response_reports_reverse_video(&b"\x1b[?5;0$y".to_vec()));
    assert!(!response_reports_reverse_video(&b"\x1b[?5".to_vec()));
    assert!(!response_reports_reverse_video(&Vec::new()));
    let e = env("xterm");
    let (replies, _) = probe(&e, &|q| match q {
        Query::ReverseVideo => b"\x1b[?5;1$y".to_vec(),
        other => vt340(other),
    });
    let (bg, fg) = detect_colorscheme(&e, &replies);
    assert_eq!(bg, "#ffffeeeedddd");
    assert_eq!(fg, "#1c1c2d2d3e3e");
}

#[test]
fn unreadable_colour_gives_the_dark_theme() {
    let e = env("xterm");
    let (replies, asked) = probe(&e, &|q| match q {
        Query::Foreground => b"\x1b]10;?\x1b\\".to_vec(),
        other => vt340(other),
    });
    assert!(asked.contains(&Query::Foreground));
    assert!(!asked.contains(&Query::ReverseVideo));
    let (bg, fg) = detect_colorscheme(&e, &replies);
    assert_eq!((bg.as_str(), fg.as_str()), ("#282a36", "white"));
    let (replies, asked) = probe(&e, &|q| match q {
        Query::Background => b"garbage".to_vec(),
        other => vt340(other),
    });
    assert!(!asked.contains(&Query::Foreground));
    let (bg, fg) = detect_colorscheme(&e, &replies);
    assert_eq!((bg.as_str(), fg.as_str()), ("#282a36", "white"));
}

#[test]
fn forced_colours_take_precedence() {
    let mut e = env("xterm");
    e.force_background = some("navy");
    let (replies, asked) = probe(&e, &vt340);
    assert!(!asked.contains(&Query::Background));
    assert!(!asked.contains(&Query::Foreground));
    assert!(!asked.contains(&Query::ReverseVideo));
    let (bg, fg) = detect_colorscheme(&e, &replies);
    assert_eq!((bg.as_str(), fg.as_str()), ("navy", "white"));
    e.force_foreground = some("yellow");
    let (bg, fg) = detect_colorscheme(&e, &replies);
    assert_eq!((bg.as_str(), fg.as_str()), ("navy", "yellow"));
    e.force_background = None;
    let (replies, asked) = probe(&e, &vt340);
    assert!(asked.contains(&Query::Background));
    let (bg, fg) = detect_colorscheme(&e, &replies);
    assert_eq!((bg.as_str(), fg.as_str()), ("#1c1c2d2d3e3e", "yellow"));
}

#[test]
fn yaft_is_white_on_black_without_asking() {
    let mut e = env("yaft-256color");
    let (replies, asked) = probe(&e, &vt340);
    assert_eq!(asked, vec![Query::SixelGeometry]);
    let c = autodetect(&e, &replies).unwrap();
    assert_eq!(c.background, "black");
    assert_eq!(c.foreground, "white");
    assert_eq!(c.width, 800);
    assert!(c.has_sixel);
    // What is forced takes precedence here as well.
    e.force_foreground = some("green");
    let c = autodetect(&e, &replies).unwrap();
    assert_eq!((c.background.as_str(), c.foreground.as_str()), ("black", "green"));
    e.force_background = some("navy");
    let c = autodetect(&e, &replies).unwrap();
    assert_eq!((c.background.as_str(), c.foreground.as_str()), ("navy", "green"));
    e.force_foreground = None;
    let c = autodetect(&e, &replies).unwrap();
    assert_eq!((c.background.as_str(), c.foreground.as_str()), ("navy", "white"));
}

#[test]
fn probing_twice_gives_the_same_profile() {
    let e = env("vt340");
    let (first, _) = probe(&e, &vt340);
    let (second, _) = probe(&e, &vt340);
    let a = autodetect(&e, &first).unwrap();
    let b = autodetect(&e, &second).unwrap();
    assert_eq!(
        (a.has_sixel, a.num_colors, a.width, a.background, a.foreground),
        (b.has_sixel, b.num_colors, b.width, b.background, b.foreground)
    );
}

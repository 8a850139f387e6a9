//! The terminal probe: what the host terminal can do, how wide it is and
//! which colours it uses.
//!
//! The probe decides from the environment which questions the terminal is
//! asked, and reads its replies. The caller sends each question, waits for
//! the reply no longer than the question allows, and hands it back.

use vstd::prelude::*;
use crate::text::{
    all_hex_digits, any_is, chars_of, chars_of_bytes, contains, decimal_value, find,
    first_occurrence, has_substring, hex_prefix, hex_prefix_len, latin1, lowercase_of,
    parse_decimal, same_chars, slice_of, split, split_on, starts_with, string_of, text_view,
    texts_of, trim_end_matches, without_trailing,
};

verus! {

/// Pixel width where the terminal tells none and no column count is known.
pub const DEFAULT_WIDTH: u32 = 1920;

/// Pixels taken for one column where only the column count is known.
pub const PIXELS_PER_COLUMN: u32 = 12;

/// Colour registers of a terminal that is not told otherwise.
pub const DEFAULT_COLORS: u32 = 256;

/// Fewest colour registers that a profile holds.
pub const MIN_COLORS: u32 = 16;

/// What the probe found: whether the terminal draws graphics, how many
/// colours it has, its width in pixels and its colours.
#[derive(Debug, Clone)]
pub struct TerminalConfig {
    pub has_sixel: bool,
    pub num_colors: u32,
    pub width: u32,
    pub background: String,
    pub foreground: String,
}

impl TerminalConfig {
    /// What every profile holds: a width of at least one pixel and at
    /// least sixteen colours.
    pub open spec fn wf(&self) -> bool {
        self.width >= 1 && self.num_colors >= MIN_COLORS
    }
}

impl Default for TerminalConfig {
    /// A terminal of which nothing is known: no graphics, sixteen colours,
    /// 1024 pixels, black on white.
    fn default() -> (c: TerminalConfig)
        ensures
            c.wf(),
            !c.has_sixel,
            c.num_colors == 16,
            c.width == 1024,
            c.background@ == "white"@,
            c.foreground@ == "black"@,
    {
        TerminalConfig {
            has_sixel: false,
            num_colors: 16,
            width: 1024,
            background: "white".to_owned(),
            foreground: "black".to_owned(),
        }
    }
}

/// Why the probe gave up.
#[derive(Clone, Copy, Debug, PartialEq, Eq, Structural)]
pub enum ProbeError {
    /// The terminal does not draw graphics.
    EnvironmentUnsupported,
}

impl ProbeError {
    /// What the user is told.
    pub fn message(&self) -> (text: String)
        ensures
            text@
                == "Your terminal does not report having sixel graphics support.\nPlease use a sixel capable terminal, such as xterm -ti vt340.\nOr set FORCE_GRAPHICS=1 to force enable."@,
    {
        "Your terminal does not report having sixel graphics support.\nPlease use a sixel capable terminal, such as xterm -ti vt340.\nOr set FORCE_GRAPHICS=1 to force enable.".to_owned()
    }
}

/// A question to the terminal.
#[derive(Clone, Copy, Debug, PartialEq, Eq, Structural)]
pub enum Query {
    /// Primary device attributes: what the terminal can do.
    Attributes,
    /// The size of the graphics area in pixels.
    SixelGeometry,
    /// The size of the window in pixels.
    WindowSize,
    /// The background colour.
    Background,
    /// The foreground colour.
    Foreground,
    /// Whether the screen is in reverse video.
    ReverseVideo,
}

/// The bytes that ask a question.
pub open spec fn query_bytes(q: Query) -> Seq<u8> {
    match q {
        Query::Attributes => seq![0x1bu8, 0x5b, 0x63],
        Query::SixelGeometry => seq![0x1bu8, 0x5b, 0x3f, 0x32, 0x3b, 0x31, 0x3b, 0x30, 0x53],
        Query::WindowSize => seq![0x1bu8, 0x5b, 0x31, 0x34, 0x74],
        Query::Background => seq![0x1bu8, 0x5d, 0x31, 0x31, 0x3b, 0x3f, 0x1b, 0x5c],
        Query::Foreground => seq![0x1bu8, 0x5d, 0x31, 0x30, 0x3b, 0x3f, 0x1b, 0x5c],
        Query::ReverseVideo => seq![0x1bu8, 0x5b, 0x3f, 0x35, 0x24, 0x70],
    }
}

/// The byte that ends the reply to a question.
pub open spec fn terminator(q: Query) -> u8 {
    match q {
        Query::Attributes => 0x63,
        Query::SixelGeometry => 0x53,
        Query::WindowSize => 0x74,
        Query::Background => 0x5c,
        Query::Foreground => 0x5c,
        Query::ReverseVideo => 0x79,
    }
}

/// Gives the bytes that ask a question.
pub fn query_sequence(q: Query) -> (bytes: Vec<u8>)
    ensures
        bytes@ == query_bytes(q),
{
    match q {
        Query::Attributes => vec![0x1bu8, 0x5b, 0x63],
        Query::SixelGeometry => vec![0x1bu8, 0x5b, 0x3f, 0x32, 0x3b, 0x31, 0x3b, 0x30, 0x53],
        Query::WindowSize => vec![0x1bu8, 0x5b, 0x31, 0x34, 0x74],
        Query::Background => vec![0x1bu8, 0x5d, 0x31, 0x31, 0x3b, 0x3f, 0x1b, 0x5c],
        Query::Foreground => vec![0x1bu8, 0x5d, 0x31, 0x30, 0x3b, 0x3f, 0x1b, 0x5c],
        Query::ReverseVideo => vec![0x1bu8, 0x5b, 0x3f, 0x35, 0x24, 0x70],
    }
}

/// How long, in milliseconds, the reply to a question is waited for: 50
/// for the attributes, 250 for every other question.
pub fn query_timeout_ms(q: Query) -> (ms: u64)
    ensures
        ms == if q == Query::Attributes {
            50u64
        } else {
            250u64
        },
{
    match q {
        Query::Attributes => 50,
        _ => 250,
    }
}

/// Whether a reply is complete, so that reading can stop before the time
/// is up: it ends with the byte that ends replies to the question.
pub fn response_complete(q: Query, response: &Vec<u8>) -> (done: bool)
    ensures
        done == (response@.len() > 0 && response@.last() == terminator(q)),
{
    if response.len() == 0 {
        return false;
    }
    let last: u8 = response[response.len() - 1];
    let end: u8 = match q {
        Query::Attributes => 0x63,
        Query::SixelGeometry => 0x53,
        Query::WindowSize => 0x74,
        Query::Background => 0x5c,
        Query::Foreground => 0x5c,
        Query::ReverseVideo => 0x79,
    };
    last == end
}

/// What the environment says before the terminal is asked anything.
#[derive(Debug)]
pub struct ProbeEnvironment {
    /// The terminal type; empty where none is set.
    pub term: String,
    /// Take graphics for granted.
    pub force_graphics: bool,
    /// The width in pixels.
    pub force_width: Option<String>,
    /// The background colour.
    pub force_background: Option<String>,
    /// The foreground colour.
    pub force_foreground: Option<String>,
    /// Ask the terminal nothing.
    pub skip_queries: bool,
    /// The number of colours.
    pub colors: Option<String>,
    /// The width in character columns.
    pub columns: Option<String>,
}

/// The replies that the terminal gave so far: none for a question that was
/// not asked, the bytes read, possibly none at all, for one that was.
#[derive(Debug)]
pub struct Replies {
    pub attributes: Option<Vec<u8>>,
    pub sixel_geometry: Option<Vec<u8>>,
    pub window_size: Option<Vec<u8>>,
    pub background: Option<Vec<u8>>,
    pub foreground: Option<Vec<u8>>,
    pub reverse_video: Option<Vec<u8>>,
}

/// The bytes of an optional reply.
pub open spec fn reply_view(r: Option<Vec<u8>>) -> Option<Seq<u8>> {
    match r {
        Some(bytes) => Some(bytes@),
        None => None,
    }
}

/// Whether a terminal type is that of yaft, which draws graphics but
/// answers no question.
pub open spec fn is_yaft(term: Seq<char>) -> bool {
    "yaft"@.is_prefix_of(term)
}

/// The names by which terminals that draw graphics are known.
pub open spec fn known_terminals() -> Seq<Seq<char>> {
    seq![
        "xterm"@,
        "mlterm"@,
        "wezterm"@,
        "foot"@,
        "contour"@,
        "kitty"@,
        "alacritty"@,
        "mintty"@,
        "cygwin"@,
    ]
}

/// Whether a terminal type in lower case holds the name of a terminal
/// that is known to draw graphics.
pub open spec fn names_known_terminal(lower: Seq<char>) -> bool {
    exists|i: int| 0 <= i < known_terminals().len() && has_substring(lower, known_terminals()[i])
}

/// Whether graphics are certain without asking: they are forced, or the
/// terminal type is a known one.
pub open spec fn graphics_assured(env: ProbeEnvironment) -> bool {
    env.force_graphics || is_yaft(env.term@) || names_known_terminal(lowercase_of(env.term@))
}

/// Whether a reply to the attributes question lists graphics: one of its
/// fields is the code 4.
pub open spec fn reports_sixel(reply: Seq<u8>) -> bool {
    split_on(latin1(reply), seq![';', '?', 'c', '\x1b']).contains(seq!['4'])
}

/// Whether the terminal draws graphics.
pub open spec fn graphics_supported(env: ProbeEnvironment, replies: Replies) -> bool {
    graphics_assured(env) || (!env.skip_queries && match replies.attributes {
        Some(reply) => reports_sixel(reply@),
        None => false,
    })
}

/// The width that a reply to one of the size questions tells: its third
/// field, a positive number, before the byte that ends the reply.
pub open spec fn reported_width(reply: Seq<u8>, end: char) -> Option<u32> {
    let parts = split_on(latin1(reply), seq![';']);
    if parts.len() >= 3 {
        match decimal_value(without_trailing(parts[2], seq![end]), u32::MAX as nat) {
            Some(w) => if w > 0 {
                Some(w as u32)
            } else {
                None
            },
            None => None,
        }
    } else {
        None
    }
}

/// A width given as a text: a positive number.
pub open spec fn width_setting(setting: Option<Seq<char>>) -> Option<u32> {
    match setting {
        Some(t) => match decimal_value(t, u32::MAX as nat) {
            Some(w) => if w > 0 {
                Some(w as u32)
            } else {
                None
            },
            None => None,
        },
        None => None,
    }
}

/// The width that a column count stands for: twelve pixels a column, where
/// the count is a positive number and the product is not too large.
pub open spec fn width_of_columns(setting: Option<Seq<char>>) -> Option<u32> {
    match width_setting(setting) {
        Some(columns) => if columns * PIXELS_PER_COLUMN <= u32::MAX {
            Some((columns * PIXELS_PER_COLUMN) as u32)
        } else {
            None
        },
        None => None,
    }
}

/// A reply as far as it counts: none where the terminal is asked nothing.
pub open spec fn heard(env: ProbeEnvironment, reply: Option<Vec<u8>>) -> Option<Seq<u8>> {
    if env.skip_queries {
        None
    } else {
        reply_view(reply)
    }
}

/// The width from the first size question that was answered with one.
pub open spec fn asked_width(env: ProbeEnvironment, replies: Replies) -> Option<u32> {
    let by_graphics = match heard(env, replies.sixel_geometry) {
        Some(reply) => reported_width(reply, 'S'),
        None => None,
    };
    if by_graphics is Some {
        by_graphics
    } else {
        match heard(env, replies.window_size) {
            Some(reply) => reported_width(reply, 't'),
            None => None,
        }
    }
}

/// The pixel width of the terminal: the forced one; else what the terminal
/// tells of its graphics area, else of its window; else twelve pixels for
/// each column; else the default.
pub open spec fn width_of(env: ProbeEnvironment, replies: Replies) -> u32 {
    if width_setting(text_view(env.force_width)) is Some {
        width_setting(text_view(env.force_width))->0
    } else if asked_width(env, replies) is Some {
        asked_width(env, replies)->0
    } else if width_of_columns(text_view(env.columns)) is Some {
        width_of_columns(text_view(env.columns))->0
    } else {
        DEFAULT_WIDTH
    }
}

/// The number of colours: the setting where it is a number of at least
/// sixteen, else the default.
pub open spec fn colors_of(env: ProbeEnvironment) -> u32 {
    match text_view(env.colors) {
        Some(t) => match decimal_value(t, u32::MAX as nat) {
            Some(n) => if n >= MIN_COLORS {
                n as u32
            } else {
                DEFAULT_COLORS
            },
            None => DEFAULT_COLORS,
        },
        None => DEFAULT_COLORS,
    }
}

/// The colour that a reply to a colour question tells: after `rgb:` three
/// runs of hexadecimal digits, separated by slashes, written behind a `#`.
#[verifier::opaque]
pub open spec fn reported_color(reply: Seq<u8>) -> Option<Seq<char>> {
    let s = latin1(reply);
    match first_occurrence(s, seq!['r', 'g', 'b', ':']) {
        Some(at) => color_of_fields(split_on(s.skip(at + 4), seq!['/'])),
        None => None,
    }
}

/// The colour that three fields of hexadecimal digits make: red and green
/// are digits throughout, blue is the digits that its field begins with.
pub open spec fn color_of_fields(parts: Seq<Seq<char>>) -> Option<Seq<char>> {
    if parts.len() >= 3 && parts[0].len() > 0 && all_hex_digits(parts[0]) && parts[1].len() > 0
        && all_hex_digits(parts[1]) && hex_prefix_len(parts[2]) > 0 {
        Some(seq!['#'] + parts[0] + parts[1] + parts[2].take(hex_prefix_len(parts[2]) as int))
    } else {
        None
    }
}

/// Whether a reply to the reverse video question says that the mode is
/// set: its third field is 1 or 3.
pub open spec fn reports_reverse_video(reply: Seq<u8>) -> bool {
    let parts = split_on(latin1(reply), seq![';', '?', '$', 'p']);
    parts.len() >= 3 && (parts[2] == seq!['1'] || parts[2] == seq!['3'])
}

/// The colour that an optional reply tells.
pub open spec fn heard_color(env: ProbeEnvironment, reply: Option<Vec<u8>>) -> Option<Seq<char>> {
    match heard(env, reply) {
        Some(bytes) => reported_color(bytes),
        None => None,
    }
}

/// Background and foreground as the terminal tells them: both colours
/// where both replies can be read, exchanged where the screen is in
/// reverse video; a dark theme where one of them cannot.
pub open spec fn asked_colors(env: ProbeEnvironment, replies: Replies) -> (Seq<char>, Seq<char>) {
    let bg = heard_color(env, replies.background);
    let fg = heard_color(env, replies.foreground);
    if bg is Some && fg is Some {
        let reversed = match heard(env, replies.reverse_video) {
            Some(reply) => reports_reverse_video(reply),
            None => false,
        };
        if reversed {
            (fg->0, bg->0)
        } else {
            (bg->0, fg->0)
        }
    } else {
        ("#282a36"@, "white"@)
    }
}

/// Background and foreground of the terminal before a forced foreground
/// is looked at: a forced background stands with white; yaft is white on
/// black; every other terminal is asked.
pub open spec fn base_colors(env: ProbeEnvironment, replies: Replies) -> (Seq<char>, Seq<char>) {
    if env.force_background is Some {
        (env.force_background->0@, "white"@)
    } else if is_yaft(env.term@) {
        ("black"@, "white"@)
    } else {
        asked_colors(env, replies)
    }
}

/// Background and foreground of the terminal. What is forced takes
/// precedence; a forced foreground takes the place of the foreground,
/// wherever that comes from.
pub open spec fn colorscheme_of(env: ProbeEnvironment, replies: Replies) -> (Seq<char>, Seq<char>) {
    (
        base_colors(env, replies).0,
        match env.force_foreground {
            Some(fg) => fg@,
            None => base_colors(env, replies).1,
        },
    )
}

/// Tests whether a terminal type is that of yaft.
pub fn term_is_yaft(term: &str) -> (b: bool)
    ensures
        b == is_yaft(term@),
{
    let chars = chars_of(term);
    let yaft = chars_of("yaft");
    starts_with(&chars, &yaft)
}

/// Tests whether a terminal type in lower case holds the name of a
/// terminal that is known to draw graphics.
pub fn known_graphics_terminal(lower: &str) -> (b: bool)
    ensures
        b == names_known_terminal(lower@),
{
    let chars = chars_of(lower);
    let names: Vec<&str> = vec![
        "xterm",
        "mlterm",
        "wezterm",
        "foot",
        "contour",
        "kitty",
        "alacritty",
        "mintty",
        "cygwin",
    ];
    assert(names@.len() == 9 && known_terminals().len() == 9);
    let mut i: usize = 0;
    while i < names.len()
        invariant
            i <= names.len(),
            chars@ == lower@,
            names@.len() == known_terminals().len(),
            forall|k: int| 0 <= k < names@.len() ==> names@[k]@ == known_terminals()[k],
            forall|k: int| 0 <= k < i ==> !has_substring(lower@, known_terminals()[k]),
        decreases names.len() - i,
    {
        let name = chars_of(names[i]);
        if contains(&chars, &name) {
            return true;
        }
        i = i + 1;
    }
    false
}

/// Tests whether graphics are certain without asking the terminal.
pub fn graphics_assured_by(env: &ProbeEnvironment) -> (b: bool)
    ensures
        b == graphics_assured(*env),
{
    if env.force_graphics || term_is_yaft(env.term.as_str()) {
        return true;
    }
    let lower = env.term.as_str().to_lowercase();
    known_graphics_terminal(lower.as_str())
}

/// Tests whether a reply to the attributes question lists graphics.
pub fn response_reports_sixel(reply: &Vec<u8>) -> (b: bool)
    ensures
        b == reports_sixel(reply@),
{
    let chars = chars_of_bytes(reply);
    let seps = vec![';', '?', 'c', '\x1b'];
    assert(seps@ == seq![';', '?', 'c', '\x1b']);
    let fields = split(&chars, &seps);
    let code = vec!['4'];
    assert(code@ == seq!['4']);
    any_is(&fields, &code)
}

/// Decides whether the terminal draws graphics: it does where that is
/// certain without asking, or where its attributes list graphics. A
/// terminal that does not is an error.
pub fn detect_sixel(env: &ProbeEnvironment, replies: &Replies) -> (r: Result<bool, ProbeError>)
    ensures
        r is Ok <==> graphics_supported(*env, *replies),
        r matches Ok(found) ==> found,
        r matches Err(e) ==> e == ProbeError::EnvironmentUnsupported,
{
    if graphics_assured_by(env) {
        return Ok(true);
    }
    if env.skip_queries {
        return Err(ProbeError::EnvironmentUnsupported);
    }
    match &replies.attributes {
        Some(reply) => {
            if response_reports_sixel(reply) {
                Ok(true)
            } else {
                Err(ProbeError::EnvironmentUnsupported)
            }
        },
        None => Err(ProbeError::EnvironmentUnsupported),
    }
}

fn positive_number(chars: &Vec<char>) -> (r: Option<u32>)
    ensures
        r == match decimal_value(chars@, u32::MAX as nat) {
            Some(w) => if w > 0 {
                Some(w as u32)
            } else {
                None
            },
            None => None,
        },
{
    match parse_decimal(chars, u32::MAX as u64) {
        Some(w) => {
            if w > 0 {
                Some(w as u32)
            } else {
                None
            }
        },
        None => None,
    }
}

/// Reads a width given as a text.
pub fn parse_width_setting(setting: &Option<String>) -> (r: Option<u32>)
    ensures
        r == width_setting(text_view(*setting)),
{
    match setting {
        Some(t) => {
            let chars = chars_of(t.as_str());
            positive_number(&chars)
        },
        None => None,
    }
}

/// Reads the width that a reply to one of the size questions tells.
pub fn parse_width_reply(reply: &Vec<u8>, end: char) -> (r: Option<u32>)
    ensures
        r == reported_width(reply@, end),
{
    let chars = chars_of_bytes(reply);
    let seps = vec![';'];
    assert(seps@ == seq![';']);
    let parts = split(&chars, &seps);
    if parts.len() >= 3 {
        assert(texts_of(parts@)[2] == parts@[2]@);
        let ends = vec![end];
        assert(ends@ == seq![end]);
        let number = trim_end_matches(&parts[2], &ends);
        positive_number(&number)
    } else {
        None
    }
}

fn heard_reply<'a>(env: &ProbeEnvironment, reply: &'a Option<Vec<u8>>) -> (r: Option<&'a Vec<u8>>)
    ensures
        match r {
            Some(bytes) => heard(*env, *reply) == Some(bytes@),
            None => heard(*env, *reply) is None,
        },
{
    if env.skip_queries {
        None
    } else {
        match reply {
            Some(bytes) => Some(bytes),
            None => None,
        }
    }
}

fn width_asked(env: &ProbeEnvironment, replies: &Replies) -> (r: Option<u32>)
    ensures
        r == asked_width(*env, *replies),
{
    let by_graphics: Option<u32> = match heard_reply(env, &replies.sixel_geometry) {
        Some(reply) => parse_width_reply(reply, 'S'),
        None => None,
    };
    if by_graphics.is_some() {
        by_graphics
    } else {
        match heard_reply(env, &replies.window_size) {
            Some(reply) => parse_width_reply(reply, 't'),
            None => None,
        }
    }
}

/// Decides the pixel width of the terminal.
pub fn detect_geometry(env: &ProbeEnvironment, replies: &Replies) -> (width: u32)
    ensures
        width == width_of(*env, *replies),
        width >= 1,
{
    match parse_width_setting(&env.force_width) {
        Some(w) => {
            return w;
        },
        None => {},
    }
    match width_asked(env, replies) {
        Some(w) => {
            return w;
        },
        None => {},
    }
    match parse_width_setting(&env.columns) {
        Some(columns) => {
            if columns <= u32::MAX / PIXELS_PER_COLUMN {
                return columns * PIXELS_PER_COLUMN;
            }
        },
        None => {},
    }
    DEFAULT_WIDTH
}

/// Decides the number of colours.
pub fn detect_colors(env: &ProbeEnvironment) -> (colors: u32)
    ensures
        colors == colors_of(*env),
        colors >= MIN_COLORS,
{
    match &env.colors {
        Some(t) => {
            let chars = chars_of(t.as_str());
            match parse_decimal(&chars, u32::MAX as u64) {
                Some(n) => {
                    if n >= MIN_COLORS as u64 {
                        n as u32
                    } else {
                        DEFAULT_COLORS
                    }
                },
                None => DEFAULT_COLORS,
            }
        },
        None => DEFAULT_COLORS,
    }
}

fn is_all_hex(s: &Vec<char>) -> (b: bool)
    ensures
        b == all_hex_digits(s@),
{
    let n = hex_prefix(s);
    proof {
        if n == s@.len() {
            assert(s@.take(n as int) == s@);
        } else {
            lemma_hex_prefix_stops(s@);
        }
    }
    n == s.len()
}

proof fn lemma_hex_prefix_stops(s: Seq<char>)
    ensures
        hex_prefix_len(s) <= s.len(),
        hex_prefix_len(s) < s.len() ==> !crate::text::is_hex_digit(s[hex_prefix_len(s) as int]),
    decreases s.len(),
{
    if s.len() > 0 && crate::text::is_hex_digit(s[0]) {
        lemma_hex_prefix_stops(s.skip(1));
        let n = hex_prefix_len(s.skip(1));
        if n < s.skip(1).len() {
            assert(s.skip(1)[n as int] == s[n as int + 1]);
        }
    }
}

/// Reads the colour that a reply to a colour question tells.
pub fn parse_color_reply(reply: &Vec<u8>) -> (r: Option<String>)
    ensures
        match r {
            Some(color) => reported_color(reply@) == Some(color@),
            None => reported_color(reply@) is None,
        },
{
    reveal(reported_color);
    let chars = chars_of_bytes(reply);
    let mark = vec!['r', 'g', 'b', ':'];
    assert(mark@ == seq!['r', 'g', 'b', ':']);
    let at: usize = match find(&chars, &mark) {
        Some(at) => at,
        None => {
            return None;
        },
    };
    let rest = slice_of(&chars, at + 4, chars.len());
    assert(rest@ == chars@.skip(at + 4));
    let seps = vec!['/'];
    assert(seps@ == seq!['/']);
    let parts = split(&rest, &seps);
    color_from_fields(&parts)
}

fn color_from_fields(parts: &Vec<Vec<char>>) -> (r: Option<String>)
    ensures
        match r {
            Some(color) => color_of_fields(texts_of(parts@)) == Some(color@),
            None => color_of_fields(texts_of(parts@)) is None,
        },
{
    if parts.len() < 3 {
        return None;
    }
    assert(texts_of(parts@)[0] == parts@[0]@);
    assert(texts_of(parts@)[1] == parts@[1]@);
    assert(texts_of(parts@)[2] == parts@[2]@);
    if parts[0].len() == 0 || !is_all_hex(&parts[0]) {
        return None;
    }
    if parts[1].len() == 0 || !is_all_hex(&parts[1]) {
        return None;
    }
    let blue: usize = hex_prefix(&parts[2]);
    if blue == 0 {
        return None;
    }
    let mut color: Vec<char> = Vec::new();
    color.push('#');
    assert(color@ == seq!['#']);
    crate::text::append(&mut color, &parts[0]);
    crate::text::append(&mut color, &parts[1]);
    let tail = slice_of(&parts[2], 0, blue);
    assert(tail@ == parts@[2]@.take(blue as int));
    crate::text::append(&mut color, &tail);
    Some(string_of(&color))
}

/// Tests whether a reply to the reverse video question says that the mode
/// is set.
pub fn response_reports_reverse_video(reply: &Vec<u8>) -> (b: bool)
    ensures
        b == reports_reverse_video(reply@),
{
    let chars = chars_of_bytes(reply);
    let seps = vec![';', '?', '$', 'p'];
    assert(seps@ == seq![';', '?', '$', 'p']);
    let parts = split(&chars, &seps);
    if parts.len() >= 3 {
        assert(texts_of(parts@)[2] == parts@[2]@);
        let set = vec!['1'];
        assert(set@ == seq!['1']);
        let kept = vec!['3'];
        assert(kept@ == seq!['3']);
        same_chars(&parts[2], &set) || same_chars(&parts[2], &kept)
    } else {
        false
    }
}

fn color_heard(env: &ProbeEnvironment, reply: &Option<Vec<u8>>) -> (r: Option<String>)
    ensures
        text_view(r) == heard_color(*env, *reply),
{
    match heard_reply(env, reply) {
        Some(bytes) => parse_color_reply(bytes),
        None => None,
    }
}

fn colors_asked(env: &ProbeEnvironment, replies: &Replies) -> (scheme: (String, String))
    ensures
        scheme.0@ == asked_colors(*env, *replies).0,
        scheme.1@ == asked_colors(*env, *replies).1,
{
    let bg = color_heard(env, &replies.background);
    let fg = color_heard(env, &replies.foreground);
    if bg.is_none() || fg.is_none() {
        return ("#282a36".to_owned(), "white".to_owned());
    }
    let reversed: bool = match heard_reply(env, &replies.reverse_video) {
        Some(reply) => response_reports_reverse_video(reply),
        None => false,
    };
    let b: String = bg.unwrap();
    let f: String = fg.unwrap();
    if reversed {
        (f, b)
    } else {
        (b, f)
    }
}

/// Decides background and foreground of the terminal.
pub fn detect_colorscheme(env: &ProbeEnvironment, replies: &Replies) -> (scheme: (String, String))
    ensures
        scheme.0@ == colorscheme_of(*env, *replies).0,
        scheme.1@ == colorscheme_of(*env, *replies).1,
{
    let base: (String, String) = match &env.force_background {
        Some(bg) => (bg.clone(), "white".to_owned()),
        None => {
            if term_is_yaft(env.term.as_str()) {
                ("black".to_owned(), "white".to_owned())
            } else {
                colors_asked(env, replies)
            }
        },
    };
    match &env.force_foreground {
        Some(fg) => (base.0, fg.clone()),
        None => base,
    }
}

/// The question that the terminal is asked next, if the replies given so
/// far leave one open. Nothing is asked where questions are switched off.
/// The attributes are asked first, unless graphics are certain; a terminal
/// without graphics is asked nothing more. The colours follow, unless they
/// are settled without asking: the foreground once the background is
/// known, the reverse video once both are. The size questions come last,
/// unless the width is forced: the window is asked where the graphics
/// area tells no width.
pub open spec fn next_question(env: ProbeEnvironment, replies: Replies) -> Option<Query> {
    let asks_colors = !is_yaft(env.term@) && env.force_background is None;
    let asks_width = width_setting(text_view(env.force_width)) is None;
    if env.skip_queries {
        None
    } else if !graphics_assured(env) && replies.attributes is None {
        Some(Query::Attributes)
    } else if !graphics_supported(env, replies) {
        None
    } else if asks_colors && replies.background is None {
        Some(Query::Background)
    } else if asks_colors && heard_color(env, replies.background) is Some && replies.foreground
        is None {
        Some(Query::Foreground)
    } else if asks_colors && heard_color(env, replies.background) is Some && heard_color(
        env,
        replies.foreground,
    ) is Some && replies.reverse_video is None {
        Some(Query::ReverseVideo)
    } else if asks_width && replies.sixel_geometry is None {
        Some(Query::SixelGeometry)
    } else if asks_width && reported_width(replies.sixel_geometry->0@, 'S') is None
        && replies.window_size is None {
        Some(Query::WindowSize)
    } else {
        None
    }
}

/// The reply to a question, if there is one.
pub open spec fn reply_to(replies: Replies, q: Query) -> Option<Vec<u8>> {
    match q {
        Query::Attributes => replies.attributes,
        Query::SixelGeometry => replies.sixel_geometry,
        Query::WindowSize => replies.window_size,
        Query::Background => replies.background,
        Query::Foreground => replies.foreground,
        Query::ReverseVideo => replies.reverse_video,
    }
}

/// A question is asked only while it has no reply: no question is asked
/// twice, and the probe ends after six questions at most.
pub proof fn asked_question_is_open(env: ProbeEnvironment, replies: Replies)
    ensures
        next_question(env, replies) matches Some(q) ==> reply_to(replies, q) is None,
        env.skip_queries ==> next_question(env, replies) is None,
{
}

/// Tells which question the terminal is asked next, or that none is left.
pub fn next_query(env: &ProbeEnvironment, replies: &Replies) -> (q: Option<Query>)
    ensures
        q == next_question(*env, *replies),
{
    if env.skip_queries {
        return None;
    }
    if !graphics_assured_by(env) && replies.attributes.is_none() {
        return Some(Query::Attributes);
    }
    if detect_sixel(env, replies).is_err() {
        return None;
    }
    let asks_colors: bool = !term_is_yaft(env.term.as_str()) && env.force_background.is_none();
    if asks_colors {
        if replies.background.is_none() {
            return Some(Query::Background);
        }
        let bg = color_heard(env, &replies.background);
        if bg.is_some() {
            if replies.foreground.is_none() {
                return Some(Query::Foreground);
            }
            let fg = color_heard(env, &replies.foreground);
            if fg.is_some() && replies.reverse_video.is_none() {
                return Some(Query::ReverseVideo);
            }
        }
    }
    if parse_width_setting(&env.force_width).is_none() {
        match &replies.sixel_geometry {
            None => {
                return Some(Query::SixelGeometry);
            },
            Some(reply) => {
                if parse_width_reply(reply, 'S').is_none() && replies.window_size.is_none() {
                    return Some(Query::WindowSize);
                }
            },
        }
    }
    None
}

impl Replies {
    /// No question asked yet.
    pub fn none() -> (r: Replies)
        ensures
            r.attributes is None,
            r.sixel_geometry is None,
            r.window_size is None,
            r.background is None,
            r.foreground is None,
            r.reverse_video is None,
    {
        Replies {
            attributes: None,
            sixel_geometry: None,
            window_size: None,
            background: None,
            foreground: None,
            reverse_video: None,
        }
    }

    /// Notes the reply to a question.
    pub fn record(&mut self, q: Query, reply: Vec<u8>)
        ensures
            final(self).attributes == if q == Query::Attributes {
                Some(reply)
            } else {
                old(self).attributes
            },
            final(self).sixel_geometry == if q == Query::SixelGeometry {
                Some(reply)
            } else {
                old(self).sixel_geometry
            },
            final(self).window_size == if q == Query::WindowSize {
                Some(reply)
            } else {
                old(self).window_size
            },
            final(self).background == if q == Query::Background {
                Some(reply)
            } else {
                old(self).background
            },
            final(self).foreground == if q == Query::Foreground {
                Some(reply)
            } else {
                old(self).foreground
            },
            final(self).reverse_video == if q == Query::ReverseVideo {
                Some(reply)
            } else {
                old(self).reverse_video
            },
    {
        match q {
            Query::Attributes => {
                self.attributes = Some(reply);
            },
            Query::SixelGeometry => {
                self.sixel_geometry = Some(reply);
            },
            Query::WindowSize => {
                self.window_size = Some(reply);
            },
            Query::Background => {
                self.background = Some(reply);
            },
            Query::Foreground => {
                self.foreground = Some(reply);
            },
            Query::ReverseVideo => {
                self.reverse_video = Some(reply);
            },
        }
    }
}

/// Puts together what is known of the terminal. A terminal that does not
/// draw graphics is an error; everything else that cannot be found out
/// falls back to its default.
pub fn autodetect(env: &ProbeEnvironment, replies: &Replies) -> (r: Result<
    TerminalConfig,
    ProbeError,
>)
    ensures
        r is Ok <==> graphics_supported(*env, *replies),
        r matches Err(e) ==> e == ProbeError::EnvironmentUnsupported,
        r matches Ok(c) ==> {
            &&& c.wf()
            &&& c.has_sixel
            &&& c.num_colors == colors_of(*env)
            &&& c.width == width_of(*env, *replies)
            &&& c.background@ == colorscheme_of(*env, *replies).0
            &&& c.foreground@ == colorscheme_of(*env, *replies).1
        },
{
    let has_sixel: bool = match detect_sixel(env, replies) {
        Ok(found) => found,
        Err(e) => {
            return Err(e);
        },
    };
    let num_colors: u32 = detect_colors(env);
    let scheme = detect_colorscheme(env, replies);
    let width: u32 = detect_geometry(env, replies);
    Ok(TerminalConfig { has_sixel, num_colors, width, background: scheme.0, foreground: scheme.1 })
}

} // verus!

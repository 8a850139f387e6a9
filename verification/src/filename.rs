//! Labels and paths as the montage shows and reads them.

use vstd::prelude::*;
use crate::paths::{file_name, path_file_name};
use crate::text::{
    append, chars_of, ends_with, lowercase_of, mask_controls, replace, replaced, string_of,
    trim_end_matches, trim_start_matches, without_controls, without_leading, without_trailing,
};

verus! {

/// How much of a path its label shows.
#[derive(Debug, Clone, Copy, PartialEq, Eq, Structural)]
pub enum FilenameMode {
    /// The final component only.
    Short,
    /// The whole path.
    Long,
}

/// The mode that a word names: `long` the long one, every other word the
/// short one.
pub fn filename_mode_named(word: &str) -> (mode: FilenameMode)
    ensures
        mode == if word@ == "long"@ {
            FilenameMode::Long
        } else {
            FilenameMode::Short
        },
{
    if crate::text::same_chars(&chars_of(word), &chars_of("long")) {
        FilenameMode::Long
    } else {
        FilenameMode::Short
    }
}

/// No line of a label is longer than this many characters.
pub const LABEL_SPAN: usize = 15;

/// `s` cut in halves, each half cut again, until no piece is longer than
/// `span`; the pieces are joined by line breaks.
pub open spec fn halved(s: Seq<char>, span: nat) -> Seq<char>
    decreases s.len(),
{
    if s.len() <= span || span == 0 {
        s
    } else {
        let mid = (s.len() / 2) as int;
        halved(s.take(mid), span) + seq!['\n'] + halved(s.skip(mid), span)
    }
}

/// A name without the colons and the `file://` at its start and without
/// the frame marker `[0]` at its end.
pub open spec fn without_decoration(name: Seq<char>) -> Seq<char> {
    without_trailing(
        without_leading(without_leading(name, seq![':']), seq!['f', 'i', 'l', 'e', ':', '/', '/']),
        seq!['[', '0', ']'],
    )
}

/// A label with the characters escaped that the montage reads as
/// commands: `%` doubled, then `\` doubled, then `@` behind a `\`.
pub open spec fn escaped(s: Seq<char>) -> Seq<char> {
    replaced(replaced(replaced(s, '%', seq!['%', '%']), '\\', seq!['\\', '\\']), '@', seq!['\\', '@'])
}

/// The label of a name: undecorated, control characters masked, escaped.
/// A short label is broken into lines; a long one is left in one line, so
/// that a path can be read as it is.
pub open spec fn label_of(name: Seq<char>, mode: FilenameMode) -> Seq<char> {
    let clean = without_controls(without_decoration(name));
    escaped(
        match mode {
            FilenameMode::Short => halved(clean, LABEL_SPAN as nat),
            FilenameMode::Long => clean,
        },
    )
}

/// The part of a path that its label shows: in short mode the final
/// component, or the whole path where it has none.
pub open spec fn shown_name(path: Seq<char>, mode: FilenameMode) -> Seq<char> {
    match mode {
        FilenameMode::Short => match path_file_name(path) {
            Some(name) => name,
            None => path,
        },
        FilenameMode::Long => path,
    }
}

fn halve_into(s: &Vec<char>, from: usize, to: usize, span: usize, out: &mut Vec<char>)
    requires
        from <= to <= s.len(),
        span >= 1,
    ensures
        final(out)@ == old(out)@ + halved(s@.subrange(from as int, to as int), span as nat),
    decreases to - from,
{
    let ghost part = s@.subrange(from as int, to as int);
    if to - from <= span {
        let mut i: usize = from;
        while i < to
            invariant
                from <= i <= to <= s.len(),
                out@ == old(out)@ + s@.subrange(from as int, i as int),
            decreases to - i,
        {
            out.push(s[i]);
            assert(s@.subrange(from as int, i + 1) == s@.subrange(from as int, i as int).push(
                s@[i as int],
            ));
            i = i + 1;
        }
    } else {
        let mid: usize = (to - from) / 2;
        assert(part.take(mid as int) == s@.subrange(from as int, from + mid));
        assert(part.skip(mid as int) == s@.subrange(from + mid, to as int));
        halve_into(s, from, from + mid, span, out);
        out.push('\n');
        halve_into(s, from + mid, to, span, out);
        assert(out@ == old(out)@ + (halved(part.take(mid as int), span as nat) + seq!['\n']
            + halved(part.skip(mid as int), span as nat)));
    }
}

/// Breaks a text into lines of at most `span` characters by halving it
/// again and again.
pub fn halve_string(s: &str, span: usize) -> (r: String)
    requires
        span >= 1,
    ensures
        r@ == halved(s@, span as nat),
{
    let chars = chars_of(s);
    let mut out: Vec<char> = Vec::new();
    assert(chars@.subrange(0, chars@.len() as int) == chars@);
    halve_into(&chars, 0, chars.len(), span, &mut out);
    assert(Seq::<char>::empty() + halved(s@, span as nat) == halved(s@, span as nat));
    string_of(&out)
}

/// Makes the label of a name.
pub fn label_for(name: &str, mode: FilenameMode) -> (r: String)
    ensures
        r@ == label_of(name@, mode),
{
    let chars = chars_of(name);
    let bare = trim_start_matches(&chars, &vec![':']);
    let bare = trim_start_matches(&bare, &vec!['f', 'i', 'l', 'e', ':', '/', '/']);
    let bare = trim_end_matches(&bare, &vec!['[', '0', ']']);
    let clean = mask_controls(&bare);
    let lines: Vec<char> = match mode {
        FilenameMode::Short => {
            let mut lines: Vec<char> = Vec::new();
            assert(clean@.subrange(0, clean@.len() as int) == clean@);
            halve_into(&clean, 0, clean.len(), LABEL_SPAN, &mut lines);
            assert(Seq::<char>::empty() + halved(clean@, LABEL_SPAN as nat) == halved(
                clean@,
                LABEL_SPAN as nat,
            ));
            lines
        },
        FilenameMode::Long => clean,
    };
    let step = replace(&lines, '%', &vec!['%', '%']);
    let step = replace(&step, '\\', &vec!['\\', '\\']);
    let step = replace(&step, '@', &vec!['\\', '@']);
    string_of(&step)
}

/// The label of a file, showing its final component only.
pub fn process_label(filename: &str) -> (r: String)
    ensures
        r@ == label_of(shown_name(filename@, FilenameMode::Short), FilenameMode::Short),
{
    process_label_with_mode(filename, FilenameMode::Short)
}

/// The label of a file, showing as much of its path as the mode says.
pub fn process_label_with_mode(filename: &str, mode: FilenameMode) -> (r: String)
    ensures
        r@ == label_of(shown_name(filename@, mode), mode),
{
    match mode {
        FilenameMode::Short => match file_name(filename) {
            Some(name) => label_for(name.as_str(), mode),
            None => label_for(filename, mode),
        },
        FilenameMode::Long => label_for(filename, mode),
    }
}

/// Whether a lower-case path names a format that may hold several frames.
pub open spec fn names_animation(lower: Seq<char>) -> bool {
    seq!['.', 'g', 'i', 'f'].is_suffix_of(lower) || seq!['.', 'w', 'e', 'b', 'p'].is_suffix_of(
        lower,
    )
}

/// A path as the decoder reads it: a path that was not given explicitly
/// and names a format with several frames gets the marker `[0]`, which
/// selects the first frame.
pub open spec fn frame_path(path: Seq<char>, lower: Seq<char>, explicit: bool) -> Seq<char> {
    if !explicit && names_animation(lower) {
        path + seq!['[', '0', ']']
    } else {
        path
    }
}

/// Marks a path for its first frame, given the path in lower case.
pub fn mark_first_frame(path: &str, lower: &str, explicit: bool) -> (r: String)
    ensures
        r@ == frame_path(path@, lower@, explicit),
{
    let mut chars = chars_of(path);
    if !explicit {
        let low = chars_of(lower);
        if ends_with(&low, &vec!['.', 'g', 'i', 'f']) || ends_with(
            &low,
            &vec!['.', 'w', 'e', 'b', 'p'],
        ) {
            append(&mut chars, &vec!['[', '0', ']']);
        }
    }
    string_of(&chars)
}

/// A path as the decoder reads it.
pub fn process_image_path(path: &str, explicit: bool) -> (r: String)
    ensures
        r@ == frame_path(path@, lowercase_of(path@), explicit),
{
    let lower = path.to_lowercase();
    mark_first_frame(path, lower.as_str(), explicit)
}

} // verus!

//! Groups of images, and the tags that a path suggests for its image.

use vstd::prelude::*;
use crate::paths::{
    extension, file_name, file_stem, parent, path_extension, path_file_name, path_file_stem,
    path_parent,
};
use crate::text::{
    append, chars_of, contains, decimal_value, has_substring, is_alphabetic_char,
    is_numeric_char, lowercase_of, parse_decimal, split, split_on, split_whitespace, string_of,
    texts, texts_of, uppercase_of, words_of,
};

verus! {

/// By what images are grouped.
#[derive(Debug, Clone, Copy, PartialEq, Eq, Structural)]
pub enum GroupBy {
    /// All images in one group.
    Ungrouped,
    /// By how alike they look.
    Similarity,
    /// By their colours.
    Color,
    /// By their size in pixels.
    Size,
    /// By the day they were last modified.
    Time,
    /// By the tags that their paths suggest.
    Tags,
}

/// The way of grouping that a word names; a word that names none leaves
/// the images ungrouped.
pub open spec fn strategy_named(word: Seq<char>) -> GroupBy {
    if word == "similarity"@ {
        GroupBy::Similarity
    } else if word == "color"@ {
        GroupBy::Color
    } else if word == "size"@ {
        GroupBy::Size
    } else if word == "time"@ {
        GroupBy::Time
    } else if word == "tags"@ {
        GroupBy::Tags
    } else {
        GroupBy::Ungrouped
    }
}

fn names(word: &Vec<char>, name: &str) -> (b: bool)
    ensures
        b == (word@ == name@),
{
    crate::text::same_chars(word, &chars_of(name))
}

/// Reads the way of grouping that a word names.
pub fn group_by_named(word: &str) -> (strategy: GroupBy)
    ensures
        strategy == strategy_named(word@),
{
    let w = chars_of(word);
    if names(&w, "similarity") {
        GroupBy::Similarity
    } else if names(&w, "color") {
        GroupBy::Color
    } else if names(&w, "size") {
        GroupBy::Size
    } else if names(&w, "time") {
        GroupBy::Time
    } else if names(&w, "tags") {
        GroupBy::Tags
    } else {
        GroupBy::Ungrouped
    }
}

/// What a group is about.
#[derive(Debug, Clone)]
pub struct GroupMetadata {
    pub group_type: String,
    /// Number of images in the group.
    pub count: usize,
    /// What the images have in common, as names with their values.
    pub common_features: Vec<(String, String)>,
}

/// Images that belong together.
#[derive(Debug, Clone)]
pub struct ImageGroup {
    pub id: String,
    pub name: String,
    /// The paths of the images.
    pub images: Vec<String>,
    /// The image that stands for the group: its first, or the empty path
    /// for a group without images.
    pub representative: String,
    pub metadata: GroupMetadata,
}

impl ImageGroup {
    /// What every group holds: the count of its images, and its first
    /// image to stand for it, or the empty path where it has none.
    pub open spec fn wf(&self) -> bool {
        &&& self.metadata.count == self.images@.len()
        &&& self.representative@ == if self.images@.len() > 0 {
            self.images@[0]@
        } else {
            Seq::<char>::empty()
        }
    }
}

/// A hash of the look of an image, with the size of the image.
#[derive(Debug, Clone, PartialEq, Eq)]
pub struct PerceptualHash {
    pub hash: Vec<u8>,
    pub width: u32,
    pub height: u32,
}

/// How often each level of red, green and blue occurs in an image.
#[derive(Debug, Clone)]
pub struct ColorHistogram {
    pub red: [u32; 256],
    pub green: [u32; 256],
    pub blue: [u32; 256],
    pub total_pixels: u64,
}

/// One where the bit `k` of `b` is set, zero where it is not.
pub open spec fn bit_at(b: u8, k: u8) -> nat {
    ((b >> k) & 1) as nat
}

/// The number of bits that are set in a byte.
pub open spec fn bit_count(b: u8) -> nat {
    bit_at(b, 0) + bit_at(b, 1) + bit_at(b, 2) + bit_at(b, 3) + bit_at(b, 4) + bit_at(b, 5)
        + bit_at(b, 6) + bit_at(b, 7)
}

/// The number of bits that are set in the first `n` bytes.
pub open spec fn bits_set(bytes: Seq<u8>, n: nat) -> nat
    decreases n,
{
    if n == 0 || n > bytes.len() {
        0
    } else {
        bits_set(bytes, (n - 1) as nat) + bit_count(bytes[n - 1])
    }
}

/// `u8::count_ones` counts the bits that are set in a byte.
pub assume_specification[ u8::count_ones ](b: u8) -> (n: u32)
    ensures
        n == bit_count(b),
;

proof fn lemma_bit_count_bound(b: u8)
    ensures
        bit_count(b) <= 8,
{
    assert((b >> 0u8) & 1 <= 1) by (bit_vector);
    assert((b >> 1u8) & 1 <= 1) by (bit_vector);
    assert((b >> 2u8) & 1 <= 1) by (bit_vector);
    assert((b >> 3u8) & 1 <= 1) by (bit_vector);
    assert((b >> 4u8) & 1 <= 1) by (bit_vector);
    assert((b >> 5u8) & 1 <= 1) by (bit_vector);
    assert((b >> 6u8) & 1 <= 1) by (bit_vector);
    assert((b >> 7u8) & 1 <= 1) by (bit_vector);
}

impl PerceptualHash {
    /// How many bytes two hashes have in common positions.
    pub open spec fn shared_len(&self, other: &PerceptualHash) -> nat {
        if self.hash@.len() <= other.hash@.len() {
            self.hash@.len()
        } else {
            other.hash@.len()
        }
    }

    /// The distance of this hash to another: the number of bits set in the
    /// bytes of this hash at the positions that both hashes have.
    pub fn hamming_distance(&self, other: &PerceptualHash) -> (d: u32)
        requires
            self.shared_len(other) * 8 <= u32::MAX,
        ensures
            d == bits_set(self.hash@, self.shared_len(other)),
            d <= 8 * self.shared_len(other),
    {
        let n: usize = if self.hash.len() <= other.hash.len() {
            self.hash.len()
        } else {
            other.hash.len()
        };
        let mut d: u32 = 0;
        let mut i: usize = 0;
        while i < n
            invariant
                i <= n,
                n <= self.hash@.len(),
                n * 8 <= u32::MAX,
                d == bits_set(self.hash@, i as nat),
                d <= 8 * i,
            decreases n - i,
        {
            proof {
                lemma_bit_count_bound(self.hash@[i as int]);
            }
            d = d + self.hash[i].count_ones();
            i = i + 1;
        }
        d
    }
}

/// The byte that fills the hash of an image: the lowest byte of the hash
/// of its path.
pub open spec fn hash_byte(path: Seq<char>) -> u8 {
    (crate::ai_tagging::text_hash(path) % 256) as u8
}

/// Makes the hash of an image of the given size: eight times the lowest
/// byte of the hash of its path.
pub fn calculate_perceptual_hash(path: &str, width: u32, height: u32) -> (h: PerceptualHash)
    ensures
        h.hash@ == Seq::new(8, |i: int| hash_byte(path@)),
        h.width == width,
        h.height == height,
{
    let byte: u8 = (crate::ai_tagging::hash_text(path) % 256) as u8;
    let mut hash: Vec<u8> = Vec::new();
    let mut i: usize = 0;
    while i < 8
        invariant
            i <= 8,
            hash@.len() == i,
            byte == hash_byte(path@),
            forall|k: int| 0 <= k < i ==> hash@[k] == byte,
        decreases 8 - i,
    {
        hash.push(byte);
        i = i + 1;
    }
    assert(hash@ == Seq::new(8, |i: int| hash_byte(path@)));
    PerceptualHash { hash, width, height }
}

/// The pixels that a line of a histogram counts: the number that begins
/// the line, if the line names red; none for every other line.
pub open spec fn pixels_in_line(line: Seq<char>) -> nat {
    if has_substring(line, "red"@) && words_of(line).len() > 0 {
        match decimal_value(words_of(line)[0], u32::MAX as nat) {
            Some(n) => n,
            None => 0,
        }
    } else {
        0
    }
}

/// The pixels that the lines of a histogram count.
pub open spec fn pixels_in_lines(lines: Seq<Seq<char>>) -> nat
    decreases lines.len(),
{
    if lines.len() == 0 {
        0
    } else {
        pixels_in_lines(lines.drop_last()) + pixels_in_line(lines.last())
    }
}

/// The pixels that a histogram counts, as far as they can be counted.
pub open spec fn pixels_counted(text: Seq<char>) -> u64 {
    let total = pixels_in_lines(split_on(text, seq!['\n']));
    if total > u64::MAX {
        u64::MAX
    } else {
        total as u64
    }
}

/// Reads a histogram as it is printed, line by line: the total of its
/// pixels. The levels of the colours are not read.
pub fn calculate_color_histogram(text: &str) -> (h: ColorHistogram)
    ensures
        h.total_pixels == pixels_counted(text@),
        forall|i: int| 0 <= i < 256 ==> h.red@[i] == 0 && h.green@[i] == 0 && h.blue@[i] == 0,
{
    let breaks = vec!['\n'];
    assert(breaks@ == seq!['\n']);
    let lines = split(&chars_of(text), &breaks);
    let red = chars_of("red");
    let mut total: u64 = 0;
    let mut i: usize = 0;
    assert(texts_of(lines@).take(0) == Seq::<Seq<char>>::empty());
    while i < lines.len()
        invariant
            i <= lines.len(),
            red@ == "red"@,
            total as nat == if pixels_in_lines(texts_of(lines@).take(i as int)) > u64::MAX {
                u64::MAX as nat
            } else {
                pixels_in_lines(texts_of(lines@).take(i as int))
            },
        decreases lines.len() - i,
    {
        let ghost prefix = texts_of(lines@).take(i + 1);
        assert(prefix.drop_last() == texts_of(lines@).take(i as int));
        assert(prefix.last() == lines@[i as int]@);
        let mut count: u64 = 0;
        if contains(&lines[i], &red) {
            let words = split_whitespace(&lines[i]);
            if words.len() > 0 {
                assert(texts_of(words@)[0] == words@[0]@);
                match parse_decimal(&words[0], u32::MAX as u64) {
                    Some(n) => {
                        count = n;
                    },
                    None => {},
                }
            }
        }
        assert(count as nat == pixels_in_line(lines@[i as int]@));
        total = if count > u64::MAX - total {
            u64::MAX
        } else {
            total + count
        };
        i = i + 1;
    }
    assert(texts_of(lines@).take(lines@.len() as int) == texts_of(lines@));
    ColorHistogram { red: [0u32; 256], green: [0u32; 256], blue: [0u32; 256], total_pixels: total }
}

/// The words that say nothing of an image.
pub open spec fn ignored_words() -> Seq<Seq<char>> {
    seq![
        "img"@,
        "photo"@,
        "pic"@,
        "image"@,
        "dsc"@,
        "sam"@,
        "001"@,
        "002"@,
        "003"@,
        "final"@,
        "copy"@,
        "version"@,
    ]
}

/// Whether every character is numeric.
pub open spec fn all_numeric(s: Seq<char>) -> bool {
    forall|i: int| 0 <= i < s.len() ==> is_numeric_char(#[trigger] s[i])
}

/// Whether every character is a letter.
pub open spec fn all_alphabetic(s: Seq<char>) -> bool {
    forall|i: int| 0 <= i < s.len() ==> is_alphabetic_char(#[trigger] s[i])
}

/// Whether some character is a letter.
pub open spec fn some_alphabetic(s: Seq<char>) -> bool {
    exists|i: int| 0 <= i < s.len() && is_alphabetic_char(#[trigger] s[i])
}

/// The length of a text in bytes.
pub open spec fn byte_len(s: Seq<char>) -> nat {
    vstd::utf8::encode_utf8(s).len()
}

/// Whether a tag says something of an image: it is not empty, not a
/// number, not one or two letters, not one of the ignored words, and it
/// holds a letter.
pub open spec fn is_meaningful(tag: Seq<char>) -> bool {
    &&& tag.len() > 0
    &&& !all_numeric(tag)
    &&& !(byte_len(tag) < 3 && tag[0] != '.' && all_alphabetic(tag))
    &&& !ignored_words().contains(lowercase_of(tag))
    &&& some_alphabetic(tag)
}

fn every_numeric(s: &Vec<char>) -> (b: bool)
    ensures
        b == all_numeric(s@),
{
    let mut i: usize = 0;
    while i < s.len()
        invariant
            i <= s.len(),
            forall|k: int| 0 <= k < i ==> is_numeric_char(#[trigger] s@[k]),
        decreases s.len() - i,
    {
        if !s[i].is_numeric() {
            return false;
        }
        i = i + 1;
    }
    true
}

fn every_alphabetic(s: &Vec<char>) -> (b: bool)
    ensures
        b == all_alphabetic(s@),
{
    let mut i: usize = 0;
    while i < s.len()
        invariant
            i <= s.len(),
            forall|k: int| 0 <= k < i ==> is_alphabetic_char(#[trigger] s@[k]),
        decreases s.len() - i,
    {
        if !s[i].is_alphabetic() {
            return false;
        }
        i = i + 1;
    }
    true
}

fn any_alphabetic(s: &Vec<char>) -> (b: bool)
    ensures
        b == some_alphabetic(s@),
{
    let mut i: usize = 0;
    while i < s.len()
        invariant
            i <= s.len(),
            forall|k: int| 0 <= k < i ==> !is_alphabetic_char(#[trigger] s@[k]),
        decreases s.len() - i,
    {
        if s[i].is_alphabetic() {
            return true;
        }
        i = i + 1;
    }
    false
}

fn ignored_word_list() -> (list: Vec<String>)
    ensures
        texts(list@) == ignored_words(),
{
    let list: Vec<String> = vec![
        "img".to_owned(),
        "photo".to_owned(),
        "pic".to_owned(),
        "image".to_owned(),
        "dsc".to_owned(),
        "sam".to_owned(),
        "001".to_owned(),
        "002".to_owned(),
        "003".to_owned(),
        "final".to_owned(),
        "copy".to_owned(),
        "version".to_owned(),
    ];
    assert(texts(list@) == ignored_words());
    list
}

/// Tests whether a tag says something of an image.
pub fn is_meaningful_tag(tag: &str) -> (b: bool)
    ensures
        b == is_meaningful(tag@),
{
    let chars = chars_of(tag);
    if chars.len() == 0 {
        return false;
    }
    if every_numeric(&chars) {
        return false;
    }
    if tag.as_bytes().len() < 3 && chars[0] != '.' && every_alphabetic(&chars) {
        return false;
    }
    let lower = tag.to_lowercase();
    if crate::image_proc::is_listed(&ignored_word_list(), &lower) {
        return false;
    }
    any_alphabetic(&chars)
}

/// The characters that separate the words of a file name.
pub open spec fn word_breaks() -> Seq<char> {
    seq!['_', '-', ' ', '.']
}

/// The words of a file name that are tags: those longer than two bytes
/// that say something of the image.
pub open spec fn word_tags(words: Seq<Seq<char>>) -> Seq<Seq<char>>
    decreases words.len(),
{
    if words.len() == 0 {
        Seq::<Seq<char>>::empty()
    } else if byte_len(words.last()) > 2 && is_meaningful(words.last()) {
        word_tags(words.drop_last()).push(words.last())
    } else {
        word_tags(words.drop_last())
    }
}

/// A text as a tag, if it says something of the image.
pub open spec fn as_tag(t: Option<Seq<char>>) -> Seq<Seq<char>> {
    match t {
        Some(tag) => if is_meaningful(tag) {
            seq![tag]
        } else {
            Seq::<Seq<char>>::empty()
        },
        None => Seq::<Seq<char>>::empty(),
    }
}

/// The tags among the words of a name.
pub open spec fn name_tags(name: Option<Seq<char>>) -> Seq<Seq<char>> {
    match name {
        Some(s) => word_tags(split_on(s, word_breaks())),
        None => Seq::<Seq<char>>::empty(),
    }
}

/// The tags that the parts of a path suggest: the words of the name of
/// its directory, the words of its file name, and its extension in upper
/// case.
pub open spec fn tags_of_parts(
    dir: Option<Seq<char>>,
    stem: Option<Seq<char>>,
    ext_upper: Option<Seq<char>>,
) -> Seq<Seq<char>> {
    name_tags(dir) + name_tags(stem) + as_tag(ext_upper)
}

/// The name of the directory that holds a path.
pub open spec fn directory_name(path: Seq<char>) -> Option<Seq<char>> {
    match path_parent(path) {
        Some(dir) => path_file_name(dir),
        None => None,
    }
}

/// The tags that a path suggests for its image.
pub open spec fn tags_of(path: Seq<char>) -> Seq<Seq<char>> {
    tags_of_parts(
        directory_name(path),
        path_file_stem(path),
        match path_extension(path) {
            Some(ext) => Some(uppercase_of(ext)),
            None => None,
        },
    )
}

fn push_tag(tags: &mut Vec<String>, tag: &str)
    ensures
        texts(final(tags)@) == texts(old(tags)@) + as_tag(
            Some(tag@),
        ),
{
    if is_meaningful_tag(tag) {
        let ghost before = tags@;
        tags.push(tag.to_owned());
        assert(texts(tags@) == texts(before).push(tag@));
        assert(texts(before).push(tag@) == texts(before)
            + seq![tag@]);
    } else {
        assert(texts(tags@) + Seq::<Seq<char>>::empty()
            == texts(tags@));
    }
}

fn push_name_tags(tags: &mut Vec<String>, name: Option<&str>)
    ensures
        texts(final(tags)@) == texts(old(tags)@) + name_tags(
            match name {
                Some(s) => Some(s@),
                None => None,
            },
        ),
{
    let ghost start = texts(tags@);
    assert(start + Seq::<Seq<char>>::empty() == start);
    match name {
        Some(s) => {
            let chars = chars_of(s);
            let breaks = vec!['_', '-', ' ', '.'];
            assert(breaks@ == word_breaks());
            let words = split(&chars, &breaks);
            let mut i: usize = 0;
            assert(texts_of(words@).take(0) == Seq::<Seq<char>>::empty());
            while i < words.len()
                invariant
                    i <= words.len(),
                    texts(tags@) == start + word_tags(
                        texts_of(words@).take(i as int),
                    ),
                decreases words.len() - i,
            {
                let ghost prefix = texts_of(words@).take(i + 1);
                assert(prefix.drop_last() == texts_of(words@).take(i as int));
                assert(prefix.last() == words@[i as int]@);
                let word = string_of(&words[i]);
                let ghost so_far = word_tags(texts_of(words@).take(i as int));
                if word.as_str().as_bytes().len() > 2 && is_meaningful_tag(word.as_str()) {
                    let ghost before = tags@;
                    tags.push(word);
                    assert(texts(tags@) == texts(before).push(
                        words@[i as int]@,
                    ));
                    assert(word_tags(prefix) == so_far.push(words@[i as int]@));
                    assert((start + so_far).push(words@[i as int]@) == start + so_far.push(
                        words@[i as int]@,
                    ));
                } else {
                    assert(word_tags(prefix) == so_far);
                }
                i = i + 1;
            }
            assert(texts_of(words@).take(words@.len() as int) == texts_of(words@));
        },
        None => {},
    }
}

/// Collects the tags that the parts of a path suggest.
pub fn tags_from_parts(dir: Option<&str>, stem: Option<&str>, ext_upper: Option<&str>) -> (tags:
    Vec<String>)
    ensures
        texts(tags@) == tags_of_parts(
            match dir {
                Some(d) => Some(d@),
                None => None,
            },
            match stem {
                Some(s) => Some(s@),
                None => None,
            },
            match ext_upper {
                Some(e) => Some(e@),
                None => None,
            },
        ),
{
    let mut tags: Vec<String> = Vec::new();
    assert(texts(tags@) == Seq::<Seq<char>>::empty());
    push_name_tags(&mut tags, dir);
    let ghost of_dir = texts(tags@);
    assert(Seq::<Seq<char>>::empty() + of_dir == of_dir);
    push_name_tags(&mut tags, stem);
    match ext_upper {
        Some(e) => {
            push_tag(&mut tags, e);
        },
        None => {
            assert(texts(tags@) + Seq::<Seq<char>>::empty()
                == texts(tags@));
        },
    }
    tags
}

/// Collects the tags that a path suggests for its image.
pub fn extract_tags(path: &str) -> (tags: Vec<String>)
    ensures
        texts(tags@) == tags_of(path@),
{
    let dir: Option<String> = match parent(path) {
        Some(p) => file_name(p.as_str()),
        None => None,
    };
    let stem: Option<String> = file_stem(path);
    let ext_upper: Option<String> = match extension(path) {
        Some(e) => Some(e.as_str().to_uppercase()),
        None => None,
    };
    tags_from_parts(
        match &dir {
            Some(d) => Some(d.as_str()),
            None => None,
        },
        match &stem {
            Some(s) => Some(s.as_str()),
            None => None,
        },
        match &ext_upper {
            Some(e) => Some(e.as_str()),
            None => None,
        },
    )
}

/// The name of the colour that stands for a group of images.
pub fn get_dominant_color_name(images: &Vec<String>) -> (name: String)
    ensures
        name@ == "Color"@,
{
    "Color".to_owned()
}

/// Images under the key that they share.
#[derive(Debug)]
pub struct KeyedGroup {
    pub key: String,
    /// The paths of the images, in the order they were given.
    pub members: Vec<String>,
}

/// A list of keys with paths, as texts.
pub open spec fn pair_texts(pairs: Seq<(String, String)>) -> Seq<(Seq<char>, Seq<char>)> {
    pairs.map_values(|p: (String, String)| (p.0@, p.1@))
}

/// The keys of a list without repetitions, each where it first occurs.
pub open spec fn distinct_keys(pairs: Seq<(Seq<char>, Seq<char>)>) -> Seq<Seq<char>>
    decreases pairs.len(),
{
    if pairs.len() == 0 {
        Seq::<Seq<char>>::empty()
    } else if distinct_keys(pairs.drop_last()).contains(pairs.last().0) {
        distinct_keys(pairs.drop_last())
    } else {
        distinct_keys(pairs.drop_last()).push(pairs.last().0)
    }
}

/// The paths that stand with a key, in the order of the list.
pub open spec fn members_of(pairs: Seq<(Seq<char>, Seq<char>)>, key: Seq<char>) -> Seq<Seq<char>>
    decreases pairs.len(),
{
    if pairs.len() == 0 {
        Seq::<Seq<char>>::empty()
    } else if pairs.last().0 == key {
        members_of(pairs.drop_last(), key).push(pairs.last().1)
    } else {
        members_of(pairs.drop_last(), key)
    }
}

/// The keys of a list of groups.
pub open spec fn group_keys(groups: Seq<KeyedGroup>) -> Seq<Seq<char>> {
    groups.map_values(|g: KeyedGroup| g.key@)
}

/// Whether the groups are those of the list: they stand in the order in
/// which their keys first occur, and each holds the paths of its key in
/// the order of the list.
pub open spec fn groups_of(groups: Seq<KeyedGroup>, pairs: Seq<(Seq<char>, Seq<char>)>) -> bool {
    &&& group_keys(groups) == distinct_keys(pairs)
    &&& forall|g: int|
        0 <= g < groups.len() ==> texts((#[trigger] groups[g]).members@)
            == members_of(pairs, groups[g].key@)
    &&& forall|g: int| 0 <= g < groups.len() ==> (#[trigger] groups[g]).members@.len() >= 1
    &&& forall|a: int, b: int|
        0 <= a < b < groups.len() ==> (#[trigger] groups[a]).key@ != (#[trigger] groups[b]).key@
}

/// Groups paths by their keys.
pub fn group_by_key(pairs: &Vec<(String, String)>) -> (groups: Vec<KeyedGroup>)
    ensures
        groups_of(groups@, pair_texts(pairs@)),
{
    let ghost all = pair_texts(pairs@);
    let mut groups: Vec<KeyedGroup> = Vec::new();
    let mut i: usize = 0;
    assert(all.take(0) == Seq::<(Seq<char>, Seq<char>)>::empty());
    assert(group_keys(groups@) == Seq::<Seq<char>>::empty());
    while i < pairs.len()
        invariant
            i <= pairs.len(),
            all == pair_texts(pairs@),
            groups_of(groups@, all.take(i as int)),
        decreases pairs.len() - i,
    {
        let ghost prefix = all.take(i + 1);
        let ghost earlier = all.take(i as int);
        assert(prefix.drop_last() == earlier);
        assert(prefix.last() == all[i as int]);
        let ghost key = pairs@[i as int].0@;
        let ghost path = pairs@[i as int].1@;
        assert(all[i as int] == (key, path));
        let ghost before = groups@;
        let mut found: Option<usize> = None;
        let mut j: usize = 0;
        while j < groups.len()
            invariant_except_break
                found is None,
                forall|k: int| 0 <= k < j ==> group_keys(groups@)[k] != key,
            invariant
                j <= groups.len(),
                i < pairs.len(),
                key == pairs@[i as int].0@,
            ensures
                match found {
                    Some(at) => at < groups.len() && groups@[at as int].key@ == key,
                    None => !group_keys(groups@).contains(key),
                },
            decreases groups.len() - j,
        {
            if groups[j].key == pairs[i].0 {
                found = Some(j);
                break ;
            }
            j = j + 1;
        }
        match found {
            Some(at) => {
                assert(group_keys(before)[at as int] == key);
                let mut group = groups.remove(at);
                let ghost members_before = group.members@;
                group.members.push(pairs[i].1.clone());
                assert(texts(group.members@) == texts(
                    members_before,
                ).push(path));
                groups.insert(at, group);
                assert(groups@.len() == before.len());
                assert forall|g: int| 0 <= g < groups@.len() implies (#[trigger] groups@[g]).key@
                    == before[g].key@ by {}
                assert(group_keys(groups@) == group_keys(before));
                assert forall|g: int| 0 <= g < groups@.len() implies texts(
                    (#[trigger] groups@[g]).members@,
                ) == members_of(prefix, groups@[g].key@) by {
                    if g != at {
                        assert(groups@[g] == before[g]);
                        assert(before[g].key@ != before[at as int].key@);
                    }
                }
            },
            None => {
                let mut members: Vec<String> = Vec::new();
                members.push(pairs[i].1.clone());
                assert(texts(members@) == seq![path]);
                groups.push(KeyedGroup { key: pairs[i].0.clone(), members });
                assert(group_keys(groups@) == group_keys(before).push(key));
                proof {
                    lemma_members_of_new_key(earlier, key);
                }
                assert forall|g: int| 0 <= g < groups@.len() implies texts(
                    (#[trigger] groups@[g]).members@,
                ) == members_of(prefix, groups@[g].key@) by {
                    if g < before.len() {
                        assert(groups@[g] == before[g]);
                        assert(group_keys(before)[g] == before[g].key@);
                    } else {
                        assert(members_of(earlier, key) == Seq::<Seq<char>>::empty());
                    }
                }
                assert forall|a: int, b: int| 0 <= a < b < groups@.len() implies (
                #[trigger] groups@[a]).key@ != (#[trigger] groups@[b]).key@ by {
                    if b == before.len() {
                        assert(group_keys(before)[a] == before[a].key@);
                    }
                }
            },
        }
        i = i + 1;
    }
    assert(all.take(all.len() as int) == all);
    groups
}

proof fn lemma_members_of_new_key(pairs: Seq<(Seq<char>, Seq<char>)>, key: Seq<char>)
    requires
        !distinct_keys(pairs).contains(key),
    ensures
        members_of(pairs, key) == Seq::<Seq<char>>::empty(),
    decreases pairs.len(),
{
    if pairs.len() > 0 {
        let head = distinct_keys(pairs.drop_last());
        if head.contains(pairs.last().0) {
            assert(distinct_keys(pairs) == head);
            lemma_members_of_new_key(pairs.drop_last(), key);
        } else {
            assert(distinct_keys(pairs) == head.push(pairs.last().0));
            assert(head.push(pairs.last().0)[head.len() as int] == pairs.last().0);
            assert(pairs.last().0 != key);
            assert(!head.contains(key)) by {
                if head.contains(key) {
                    let at = choose|at: int| 0 <= at < head.len() && head[at] == key;
                    assert(head.push(pairs.last().0)[at] == key);
                }
            }
            lemma_members_of_new_key(pairs.drop_last(), key);
        }
    }
}

/// Whether a group has the given identifier, name, images and kind, and
/// the given features in common. The first image stands for the group; a
/// group without images is stood for by the empty path.
pub open spec fn is_group(
    g: ImageGroup,
    id: Seq<char>,
    name: Seq<char>,
    members: Seq<Seq<char>>,
    kind: Seq<char>,
    features: Seq<(Seq<char>, Seq<char>)>,
) -> bool {
    &&& g.id@ == id
    &&& g.name@ == name
    &&& texts(g.images@) == members
    &&& g.representative@ == if members.len() > 0 {
        members[0]
    } else {
        Seq::<char>::empty()
    }
    &&& g.metadata.group_type@ == kind
    &&& g.metadata.count == members.len()
    &&& pair_texts(g.metadata.common_features@) == features
}

/// A group that is made as described holds the count of its images and
/// is stood for by its first image.
pub proof fn described_group_is_well_formed(
    g: ImageGroup,
    id: Seq<char>,
    name: Seq<char>,
    members: Seq<Seq<char>>,
    kind: Seq<char>,
    features: Seq<(Seq<char>, Seq<char>)>,
)
    requires
        is_group(g, id, name, members, kind, features),
    ensures
        g.wf(),
{
    assert(texts(g.images@).len() == g.images@.len());
    if g.images@.len() > 0 {
        assert(texts(g.images@)[0] == g.images@[0]@);
    }
}

fn build_group(
    id: String,
    name: String,
    images: Vec<String>,
    kind: &str,
    features: Vec<(String, String)>,
) -> (g: ImageGroup)
    ensures
        is_group(g, id@, name@, texts(images@), kind@, pair_texts(features@)),
        g.wf(),
{
    let representative: String = if images.len() > 0 {
        assert(texts(images@)[0] == images@[0]@);
        images[0].clone()
    } else {
        String::new()
    };
    let count: usize = images.len();
    ImageGroup {
        id,
        name,
        images,
        representative,
        metadata: GroupMetadata { group_type: kind.to_owned(), count, common_features: features },
    }
}

fn joined(head: &str, tail: &Vec<char>) -> (r: String)
    ensures
        r@ == head@ + tail@,
{
    let mut out = chars_of(head);
    append(&mut out, tail);
    string_of(&out)
}

fn named_images(what: &str) -> (r: String)
    ensures
        r@ == what@ + " Images"@,
{
    let mut out = chars_of(what);
    append(&mut out, &chars_of(" Images"));
    string_of(&out)
}

/// The group of all images: `all`, named `All Images`, of kind `none`.
pub fn group_all(paths: Vec<String>) -> (g: ImageGroup)
    ensures
        is_group(
            g,
            "all"@,
            "All Images"@,
            texts(paths@),
            "none"@,
            Seq::<(Seq<char>, Seq<char>)>::empty(),
        ),
{
    let features: Vec<(String, String)> = Vec::new();
    assert(pair_texts(features@) == Seq::<(Seq<char>, Seq<char>)>::empty());
    build_group("all".to_owned(), "All Images".to_owned(), paths, "none", features)
}

/// Whether a group is that of the images that look alike, the one with
/// the given index: `similarity_` and the index, named `Similar Group` and
/// the index counted from one.
pub open spec fn is_similarity_group(g: ImageGroup, index: nat, members: Seq<Seq<char>>) -> bool {
    is_group(
        g,
        "similarity_"@ + crate::text::decimal_digits(index),
        "Similar Group "@ + crate::text::decimal_digits(index + 1),
        members,
        "similarity"@,
        Seq::<(Seq<char>, Seq<char>)>::empty(),
    )
}

/// Makes the group of images that look alike, the one with the given
/// index.
pub fn similarity_group(index: u32, images: Vec<String>) -> (g: ImageGroup)
    ensures
        is_similarity_group(g, index as nat, texts(images@)),
{
    let features: Vec<(String, String)> = Vec::new();
    assert(pair_texts(features@) == Seq::<(Seq<char>, Seq<char>)>::empty());
    build_group(
        joined("similarity_", &crate::text::decimal_of(index as u64)),
        joined("Similar Group ", &crate::text::decimal_of(index as u64 + 1)),
        images,
        "similarity",
        features,
    )
}

fn one_feature(name: &str, value: &str) -> (features: Vec<(String, String)>)
    ensures
        pair_texts(features@) == seq![(name@, value@)],
{
    let mut features: Vec<(String, String)> = Vec::new();
    features.push((name.to_owned(), value.to_owned()));
    assert(pair_texts(features@) == seq![(name@, value@)]);
    features
}

/// Whether a group is that of the images of like colours, the one with
/// the given index: `color_` and the index, named after the colour.
pub open spec fn is_color_group(
    g: ImageGroup,
    index: nat,
    color: Seq<char>,
    members: Seq<Seq<char>>,
) -> bool {
    is_group(
        g,
        "color_"@ + crate::text::decimal_digits(index),
        color + " Images"@,
        members,
        "color"@,
        seq![("dominant_color"@, color)],
    )
}

/// Makes the group of images of like colours, the one with the given
/// index.
pub fn color_group(index: u32, images: Vec<String>) -> (g: ImageGroup)
    ensures
        is_color_group(g, index as nat, "Color"@, texts(images@)),
{
    let color = get_dominant_color_name(&images);
    build_group(
        joined("color_", &crate::text::decimal_of(index as u64)),
        named_images(color.as_str()),
        images,
        "color",
        one_feature("dominant_color", color.as_str()),
    )
}

/// Whether a group is that of a key: its identifier is the prefix and the
/// key in which one character is replaced, it is named after the key, and
/// the key is the feature that its images have in common.
pub open spec fn is_keyed_group(
    g: ImageGroup,
    id: Seq<char>,
    key: Seq<char>,
    members: Seq<Seq<char>>,
    kind: Seq<char>,
    feature: Seq<char>,
) -> bool {
    is_group(g, id, key + " Images"@, members, kind, seq![(feature, key)])
}

fn keyed_group(group: KeyedGroup, id: String, kind: &str, feature: &str) -> (g: ImageGroup)
    ensures
        is_keyed_group(
            g,
            id@,
            group.key@,
            texts(group.members@),
            kind@,
            feature@,
        ),
{
    let name = named_images(group.key.as_str());
    let features = one_feature(feature, group.key.as_str());
    build_group(id, name, group.members, kind, features)
}

/// The identifier of the group of a tag: `tag_` and the tag in lower case
/// with underscores for its spaces.
pub open spec fn tag_group_id(tag: Seq<char>) -> Seq<char> {
    "tag_"@ + crate::text::replaced(lowercase_of(tag), ' ', seq!['_'])
}

/// The identifier of the group of a size: `size_` and the size with an
/// underscore for its `x`.
pub open spec fn size_group_id(size: Seq<char>) -> Seq<char> {
    "size_"@ + crate::text::replaced(size, 'x', seq!['_'])
}

/// The identifier of the group of a day: `date_` and the day without its
/// hyphens.
pub open spec fn time_group_id(day: Seq<char>) -> Seq<char> {
    "date_"@ + crate::text::replaced(day, '-', Seq::<char>::empty())
}

/// Makes the group of the images with a tag.
pub fn tag_group(group: KeyedGroup) -> (g: ImageGroup)
    ensures
        is_keyed_group(
            g,
            tag_group_id(group.key@),
            group.key@,
            texts(group.members@),
            "tags"@,
            "tag"@,
        ),
{
    let lower = group.key.as_str().to_lowercase();
    let to = vec!['_'];
    assert(to@ == seq!['_']);
    let id = joined("tag_", &crate::text::replace(&chars_of(lower.as_str()), ' ', &to));
    keyed_group(group, id, "tags", "tag")
}

/// Makes the group of the images of a size.
pub fn size_group(group: KeyedGroup) -> (g: ImageGroup)
    ensures
        is_keyed_group(
            g,
            size_group_id(group.key@),
            group.key@,
            texts(group.members@),
            "size"@,
            "resolution"@,
        ),
{
    let to = vec!['_'];
    assert(to@ == seq!['_']);
    let id = joined("size_", &crate::text::replace(&chars_of(group.key.as_str()), 'x', &to));
    keyed_group(group, id, "size", "resolution")
}

/// Makes the group of the images of a day.
pub fn time_group(group: KeyedGroup) -> (g: ImageGroup)
    ensures
        is_keyed_group(
            g,
            time_group_id(group.key@),
            group.key@,
            texts(group.members@),
            "time"@,
            "date"@,
        ),
{
    let to: Vec<char> = Vec::new();
    assert(to@ == Seq::<char>::empty());
    let id = joined("date_", &crate::text::replace(&chars_of(group.key.as_str()), '-', &to));
    keyed_group(group, id, "time", "date")
}

/// The key under which images of a size are grouped: width and height,
/// each rounded down to a multiple of a hundred, with an `x` between.
pub open spec fn size_key(width: u32, height: u32) -> Seq<char> {
    crate::text::decimal_digits(((width / 100) * 100) as nat) + seq!['x']
        + crate::text::decimal_digits(((height / 100) * 100) as nat)
}

/// Names the key under which images of a size are grouped.
pub fn size_bucket(width: u32, height: u32) -> (key: String)
    ensures
        key@ == size_key(width, height),
{
    let mut out: Vec<char> = Vec::new();
    crate::text::push_decimal(&mut out, ((width / 100) * 100) as u64);
    out.push('x');
    crate::text::push_decimal(&mut out, ((height / 100) * 100) as u64);
    assert(out@ == size_key(width, height));
    string_of(&out)
}

/// The tags of the paths, each with its path: path by path, the tags of a
/// path in their order.
pub open spec fn tagged(paths: Seq<Seq<char>>) -> Seq<(Seq<char>, Seq<char>)>
    decreases paths.len(),
{
    if paths.len() == 0 {
        Seq::<(Seq<char>, Seq<char>)>::empty()
    } else {
        tagged(paths.drop_last()) + tags_of(paths.last()).map_values(
            |t: Seq<char>| (t, paths.last()),
        )
    }
}

/// Groups images by the tags that their paths suggest: a group for each
/// tag, in the order in which the tags first occur; an image is in the
/// group of each of its tags.
pub fn group_by_tags(paths: &Vec<String>) -> (groups: Vec<ImageGroup>)
    ensures
        groups@.len() == distinct_keys(tagged(texts(paths@))).len(),
        forall|g: int|
            0 <= g < groups@.len() ==> is_keyed_group(
                #[trigger] groups@[g],
                tag_group_id(distinct_keys(tagged(texts(paths@)))[g]),
                distinct_keys(tagged(texts(paths@)))[g],
                members_of(
                    tagged(texts(paths@)),
                    distinct_keys(tagged(texts(paths@)))[g],
                ),
                "tags"@,
                "tag"@,
            ),
{
    let ghost all = texts(paths@);
    let mut pairs: Vec<(String, String)> = Vec::new();
    let mut i: usize = 0;
    assert(all.take(0) == Seq::<Seq<char>>::empty());
    assert(pair_texts(pairs@) == Seq::<(Seq<char>, Seq<char>)>::empty());
    while i < paths.len()
        invariant
            i <= paths.len(),
            all == texts(paths@),
            pair_texts(pairs@) == tagged(all.take(i as int)),
        decreases paths.len() - i,
    {
        assert(all.take(i + 1).drop_last() == all.take(i as int));
        assert(all.take(i + 1).last() == paths@[i as int]@);
        let tags = extract_tags(paths[i].as_str());
        let ghost path = paths@[i as int]@;
        let ghost tag_texts = texts(tags@);
        let ghost before = pair_texts(pairs@);
        let mut j: usize = 0;
        assert(tag_texts.take(0).map_values(|t: Seq<char>| (t, path)) == Seq::<
            (Seq<char>, Seq<char>),
        >::empty());
        assert(before + Seq::<(Seq<char>, Seq<char>)>::empty() == before);
        while j < tags.len()
            invariant
                j <= tags.len(),
                i < paths.len(),
                path == paths@[i as int]@,
                tag_texts == texts(tags@),
                pair_texts(pairs@) == before + tag_texts.take(j as int).map_values(
                    |t: Seq<char>| (t, path),
                ),
            decreases tags.len() - j,
        {
            let ghost so_far = pairs@;
            pairs.push((tags[j].clone(), paths[i].clone()));
            assert(pair_texts(pairs@) == pair_texts(so_far).push((tags@[j as int]@, path)));
            assert(tag_texts.take(j + 1).map_values(|t: Seq<char>| (t, path)) == tag_texts.take(
                j as int,
            ).map_values(|t: Seq<char>| (t, path)).push((tags@[j as int]@, path)));
            j = j + 1;
        }
        assert(tag_texts.take(tag_texts.len() as int) == tag_texts);
        i = i + 1;
    }
    assert(all.take(all.len() as int) == all);
    let mut keyed = group_by_key(&pairs);
    let ghost keys = distinct_keys(tagged(all));
    let ghost sorted = keyed@;
    assert(group_keys(sorted) == keys);
    let mut groups: Vec<ImageGroup> = Vec::new();
    let n: usize = keyed.len();
    let mut k: usize = 0;
    while k < n
        invariant
            k <= n,
            n == sorted.len(),
            keyed@ == sorted.skip(k as int),
            groups@.len() == k,
            keys == distinct_keys(tagged(all)),
            group_keys(sorted) == keys,
            groups_of(sorted, tagged(all)),
            forall|g: int|
                0 <= g < k ==> is_keyed_group(
                    #[trigger] groups@[g],
                    tag_group_id(keys[g]),
                    keys[g],
                    members_of(tagged(all), keys[g]),
                    "tags"@,
                    "tag"@,
                ),
        decreases n - k,
    {
        let group = keyed.remove(0);
        assert(group == sorted[k as int]);
        assert(keyed@ == sorted.skip(k + 1));
        assert(group_keys(sorted)[k as int] == group.key@);
        let made = tag_group(group);
        groups.push(made);
        k = k + 1;
    }
    groups
}

/// Whether the groups stand in the order of their keys.
pub open spec fn keys_ascend(groups: Seq<KeyedGroup>) -> bool {
    forall|a: int, b: int|
        0 <= a < b < groups.len() ==> !crate::image_proc::text_lt(
            (#[trigger] groups[b]).key@,
            (#[trigger] groups[a]).key@,
        )
}

/// Puts groups in the order of their keys.
pub fn sort_by_key(groups: Vec<KeyedGroup>) -> (sorted: Vec<KeyedGroup>)
    ensures
        keys_ascend(sorted@),
        sorted@.to_multiset() == groups@.to_multiset(),
{
    let mut rest = groups;
    let mut sorted: Vec<KeyedGroup> = Vec::new();
    let ghost all = groups@;
    let n: usize = rest.len();
    let mut i: usize = 0;
    assert(all.take(0) == Seq::<KeyedGroup>::empty());
    while i < n
        invariant
            i <= n,
            n == all.len(),
            rest@ == all.skip(i as int),
            keys_ascend(sorted@),
            sorted@.to_multiset() == all.take(i as int).to_multiset(),
        decreases n - i,
    {
        let group = rest.remove(0);
        assert(group == all[i as int]);
        assert(rest@ == all.skip(i + 1));
        let mut at: usize = sorted.len();
        while at > 0 && crate::image_proc::text_less(
            group.key.as_str(),
            sorted[at - 1].key.as_str(),
        )
            invariant
                at <= sorted.len(),
                forall|k: int|
                    at <= k < sorted@.len() ==> crate::image_proc::text_lt(
                        group.key@,
                        (#[trigger] sorted@[k]).key@,
                    ),
            decreases at,
        {
            at = at - 1;
        }
        let ghost before = sorted@;
        sorted.insert(at, group);
        proof {
            vstd::seq_lib::to_multiset_insert(before, at as int, group);
            vstd::seq_lib::to_multiset_build(all.take(i as int), group);
            assert(all.take(i + 1) == all.take(i as int).push(group));
            assert forall|a: int, b: int| 0 <= a < b < sorted@.len() implies !crate::image_proc::text_lt(
                (#[trigger] sorted@[b]).key@,
                (#[trigger] sorted@[a]).key@,
            ) by {
                if b == at {
                    assert(sorted@[a] == before[a]);
                    lemma_not_less_chain(before, a, at as int - 1, group.key@);
                } else if a == at {
                    assert(sorted@[b] == before[b - 1]);
                    crate::image_proc::text_order_is_total(group.key@, before[b - 1].key@);
                } else {
                    let x = if a < at {
                        a
                    } else {
                        a - 1
                    };
                    let y = if b < at {
                        b
                    } else {
                        b - 1
                    };
                    assert(sorted@[a] == before[x]);
                    assert(sorted@[b] == before[y]);
                }
            }
        }
        i = i + 1;
    }
    assert(all.take(all.len() as int) == all);
    sorted
}

proof fn lemma_not_less_chain(before: Seq<KeyedGroup>, a: int, last: int, key: Seq<char>)
    requires
        keys_ascend(before),
        0 <= a <= last < before.len(),
        !crate::image_proc::text_lt(key, before[last].key@),
    ensures
        !crate::image_proc::text_lt(key, before[a].key@),
{
    if a < last && crate::image_proc::text_lt(key, before[a].key@) {
        assert(!crate::image_proc::text_lt(before[last].key@, before[a].key@));
        crate::image_proc::text_order_carries_on(key, before[a].key@, before[last].key@);
    }
}

/// Whether image `i` is like image `j`, as the table tells; an entry that
/// the table lacks counts as unlike.
pub open spec fn alike_at(alike: Seq<Vec<bool>>, i: int, j: int) -> bool {
    0 <= i < alike.len() && 0 <= j < alike[i]@.len() && alike[i]@[j]
}

/// Whether image `j` has its group once the images below `i` have been
/// gone through: one of them leads a group and is `j` itself or like `j`.
/// An image leads a group if it has none when its turn comes.
pub open spec fn claimed(alike: Seq<Vec<bool>>, i: nat, j: int) -> bool
    decreases i,
{
    if i == 0 {
        false
    } else {
        claimed(alike, (i - 1) as nat, j) || (i - 1 < alike.len() && !claimed(
            alike,
            (i - 1) as nat,
            i - 1,
        ) && (i - 1 == j || alike_at(alike, i - 1, j)))
    }
}

/// Whether image `i` leads a group: no group has taken it when its turn
/// comes.
pub open spec fn leads(alike: Seq<Vec<bool>>, i: int) -> bool {
    0 <= i < alike.len() && !claimed(alike, i as nat, i)
}

/// The images below `upto` that follow the leader `i`: those like it that
/// no earlier leader has taken, in ascending order.
pub open spec fn followers(alike: Seq<Vec<bool>>, i: int, upto: nat) -> Seq<usize>
    decreases upto,
{
    if upto == 0 {
        Seq::<usize>::empty()
    } else if upto - 1 != i && alike_at(alike, i, upto - 1) && !claimed(alike, i as nat, upto - 1) {
        followers(alike, i, (upto - 1) as nat).push((upto - 1) as usize)
    } else {
        followers(alike, i, (upto - 1) as nat)
    }
}

/// The group of the leader `i`: the leader, then its followers.
pub open spec fn group_of(alike: Seq<Vec<bool>>, i: int) -> Seq<usize> {
    seq![i as usize] + followers(alike, i, alike.len())
}

/// The leaders below `upto`, in ascending order.
pub open spec fn leaders(alike: Seq<Vec<bool>>, upto: nat) -> Seq<usize>
    decreases upto,
{
    if upto == 0 {
        Seq::<usize>::empty()
    } else if leads(alike, upto - 1) {
        leaders(alike, (upto - 1) as nat).push((upto - 1) as usize)
    } else {
        leaders(alike, (upto - 1) as nat)
    }
}

/// Whether the groups are those that the table gives: a group for every
/// leader, in ascending order of the leaders, each with its followers.
pub open spec fn groups_by_likeness(groups: Seq<Vec<usize>>, alike: Seq<Vec<bool>>, upto: nat) -> bool {
    &&& groups.len() == leaders(alike, upto).len()
    &&& forall|g: int|
        0 <= g < groups.len() ==> (#[trigger] groups[g])@ == group_of(
            alike,
            leaders(alike, upto)[g] as int,
        )
}

/// Every image gets its group: when all images have been gone through,
/// each of them leads a group or follows a leader.
pub proof fn every_image_has_its_group(alike: Seq<Vec<bool>>, j: int)
    requires
        0 <= j < alike.len(),
    ensures
        claimed(alike, alike.len(), j),
{
    assert(claimed(alike, (j + 1) as nat, j));
    lemma_claimed_stays(alike, (j + 1) as nat, alike.len(), j);
}

proof fn lemma_claimed_stays(alike: Seq<Vec<bool>>, i: nat, later: nat, j: int)
    requires
        i <= later,
        claimed(alike, i, j),
    ensures
        claimed(alike, later, j),
    decreases later - i,
{
    if i < later {
        assert(claimed(alike, i + 1, j));
        lemma_claimed_stays(alike, i + 1, later, j);
    }
}

fn is_alike(alike: &Vec<Vec<bool>>, i: usize, j: usize) -> (b: bool)
    ensures
        b == alike_at(alike@, i as int, j as int),
{
    i < alike.len() && j < alike[i].len() && alike[i][j]
}

/// Groups images by likeness. The images are taken in order: an image
/// that no group has taken leads a new group, which takes every image
/// like its leader that no group has taken before.
pub fn group_greedily(alike: &Vec<Vec<bool>>) -> (groups: Vec<Vec<usize>>)
    ensures
        groups_by_likeness(groups@, alike@, alike@.len()),
{
    let n: usize = alike.len();
    let mut assigned: Vec<bool> = Vec::new();
    let mut k: usize = 0;
    while k < n
        invariant
            k <= n,
            assigned@.len() == k,
            forall|j: int| 0 <= j < k ==> !assigned@[j],
        decreases n - k,
    {
        assigned.push(false);
        k = k + 1;
    }
    let mut groups: Vec<Vec<usize>> = Vec::new();
    let mut i: usize = 0;
    while i < n
        invariant
            i <= n,
            n == alike@.len(),
            assigned@.len() == n,
            forall|j: int| 0 <= j < n ==> assigned@[j] == claimed(alike@, i as nat, j),
            groups_by_likeness(groups@, alike@, i as nat),
        decreases n - i,
    {
        if !assigned[i] {
            let mut group: Vec<usize> = Vec::new();
            group.push(i);
            assigned.set(i, true);
            let mut j: usize = 0;
            assert(group@ == seq![i] + followers(alike@, i as int, 0));
            while j < n
                invariant
                    j <= n,
                    i < n,
                    n == alike@.len(),
                    assigned@.len() == n,
                    leads(alike@, i as int),
                    group@ == seq![i] + followers(alike@, i as int, j as nat),
                    forall|m: int|
                        0 <= m < j ==> assigned@[m] == claimed(alike@, (i + 1) as nat, m),
                    forall|m: int|
                        j <= m < n ==> assigned@[m] == (claimed(alike@, i as nat, m) || m == i),
                decreases n - j,
            {
                if j != i && !assigned[j] && is_alike(alike, i, j) {
                    let ghost before = group@;
                    group.push(j);
                    assigned.set(j, true);
                    assert(group@ == seq![i] + followers(alike@, i as int, j as nat).push(j));
                }
                j = j + 1;
            }
            let ghost before = groups@;
            groups.push(group);
            assert(leaders(alike@, (i + 1) as nat) == leaders(alike@, i as nat).push(i));
            assert forall|g: int| 0 <= g < groups@.len() implies (#[trigger] groups@[g])@
                == group_of(alike@, leaders(alike@, (i + 1) as nat)[g] as int) by {
                if g < before.len() {
                    assert(groups@[g] == before[g]);
                }
            }
        } else {
            assert forall|m: int| 0 <= m < n implies assigned@[m] == claimed(
                alike@,
                (i + 1) as nat,
                m,
            ) by {}
        }
        i = i + 1;
    }
    groups
}

} // verus!

//! Tags for images from a vision model: what the model is asked, how its
//! answer is read, and where answers are cached.
//!
//! The caller talks to the model and to the file system. Here it is
//! decided what is sent and what the reply means.

use vstd::prelude::*;
use vstd::std_specs::hash::DefaultHasherAdditionalSpecFns;
use std::collections::hash_map::DefaultHasher;
use std::hash::Hasher;
use crate::image_proc::text_chunks;
use crate::paths::{file_name, join, path_file_name, path_joined};
use crate::text::{
    append, chars_of, contains, decimal_digits, has_substring, hex_digits, hex_of, lowercase_of,
    split, split_on, string_of, text_view, texts, texts_of, trim, trimmed,
};

verus! {

/// Largest image, in bytes, that is sent to the model: 20 MiB.
pub const MAX_IMAGE_BYTES: usize = 20_971_520;

/// Seconds for which a cached answer is good: thirty days.
pub const CACHE_LIFETIME_SECS: i64 = 2_592_000;

/// Most tags kept for an image, unless the number is set otherwise.
pub const DEFAULT_MAX_TAGS: usize = 10;

/// How the model is reached and what is asked of it.
#[derive(Debug, Clone)]
pub struct AITaggingConfig {
    pub api_endpoint: String,
    pub api_key: String,
    pub model: String,
    pub max_tags: usize,
    /// The directory in which answers are cached.
    pub cache_dir: Option<String>,
    /// The question put to the model, where the default is not used.
    pub custom_prompt: Option<String>,
    pub debug: bool,
}

/// The tags of an image.
#[derive(Debug, Clone)]
pub struct AITags {
    pub tags: Vec<String>,
    /// `sfw` or `nsfw`.
    pub content_rating: Option<String>,
    pub model: String,
    /// When the tags were made, in seconds since the epoch.
    pub timestamp: i64,
    /// Whether the tags come from the cache.
    pub cache_hit: bool,
}

/// Why an image got no tags.
#[derive(Debug, Clone, Copy, PartialEq, Eq, Structural)]
pub enum TagError {
    /// The image is larger than what is sent to the model.
    ImageTooLarge,
    /// The answer of the model holds no tag.
    NoTags,
}

/// The text of an image as it is sent, as `base64::encode` gives it.
pub uninterp spec fn base64_text(bytes: Seq<u8>) -> Seq<char>;

/// `base64::encode`: the bytes in the standard alphabet with padding. The
/// result depends on the bytes alone; it is named, not stated. The call
/// panics on inputs too long for their encoding to be counted, which the
/// bound leaves out.
#[verifier::external_body]
fn base64_encode(bytes: &Vec<u8>) -> (r: String)
    requires
        bytes@.len() <= MAX_IMAGE_BYTES,
    ensures
        r@ == base64_text(bytes@),
{
    #[allow(deprecated)]
    base64::encode(bytes)
}

/// Tests whether a file of the given size is too large to be sent.
pub fn image_too_large(size: u64) -> (b: bool)
    ensures
        b == (size > MAX_IMAGE_BYTES),
{
    size > MAX_IMAGE_BYTES as u64
}

/// Encodes an image for the model. An image of more than 20 MiB is not
/// sent.
pub fn encode_image(bytes: &Vec<u8>) -> (r: Result<String, TagError>)
    ensures
        match r {
            Ok(text) => bytes@.len() <= MAX_IMAGE_BYTES && text@ == base64_text(bytes@),
            Err(e) => bytes@.len() > MAX_IMAGE_BYTES && e == TagError::ImageTooLarge,
        },
{
    if bytes.len() > MAX_IMAGE_BYTES {
        Err(TagError::ImageTooLarge)
    } else {
        Ok(base64_encode(bytes))
    }
}

/// Whether the model runs on this machine, as far as the settings tell:
/// the endpoint names `localhost`, or there is no key.
pub open spec fn is_local(endpoint: Option<Seq<char>>, api_key: Option<Seq<char>>) -> bool {
    (endpoint is Some && has_substring(endpoint->0, "localhost"@)) || api_key is None
        || api_key->0.len() == 0
}

/// The directory in which answers are cached: `.cache/lsix/ai_tags` under
/// the home directory.
pub open spec fn tag_cache_dir(home: Seq<char>) -> Seq<char> {
    path_joined(path_joined(path_joined(home, ".cache"@), "lsix"@), "ai_tags"@)
}

/// An optional text as its characters.
pub open spec fn str_view(t: Option<&str>) -> Option<Seq<char>> {
    match t {
        Some(s) => Some(s@),
        None => None,
    }
}

fn holds(s: &str, word: &str) -> (b: bool)
    ensures
        b == has_substring(s@, word@),
{
    contains(&chars_of(s), &chars_of(word))
}

impl AITaggingConfig {
    /// Whether this is the configuration that the settings give: the
    /// endpoint and the model as set, or the public endpoint and the model
    /// that suits where the model runs; ten tags; the cache under the
    /// home directory; no debugging.
    pub open spec fn is_from(
        &self,
        endpoint: Option<Seq<char>>,
        api_key: Option<Seq<char>>,
        model: Option<Seq<char>>,
        home: Option<Seq<char>>,
        custom_prompt: Option<Seq<char>>,
    ) -> bool {
        &&& self.api_endpoint@ == match endpoint {
            Some(e) => e,
            None => "https://api.openai.com/v1/chat/completions"@,
        }
        &&& self.api_key@ == match api_key {
            Some(k) => k,
            None => Seq::<char>::empty(),
        }
        &&& self.model@ == match model {
            Some(m) => m,
            None => if is_local(endpoint, api_key) {
                "Qwen3VL-8B-Instruct-Q8_0.gguf"@
            } else {
                "gpt-4o-mini"@
            },
        }
        &&& self.max_tags == DEFAULT_MAX_TAGS
        &&& text_view(self.cache_dir) == Some(
            tag_cache_dir(
                match home {
                    Some(h) => h,
                    None => Seq::<char>::empty(),
                },
            ),
        )
        &&& text_view(self.custom_prompt) == custom_prompt
        &&& !self.debug
    }

    /// Makes the configuration from the settings of the environment.
    pub fn from_environment(
        endpoint: Option<&str>,
        api_key: Option<&str>,
        model: Option<&str>,
        home: Option<&str>,
        custom_prompt: Option<String>,
    ) -> (c: AITaggingConfig)
        ensures
            c.is_from(
                str_view(endpoint),
                str_view(api_key),
                str_view(model),
                str_view(home),
                text_view(custom_prompt),
            ),
    {
        let key: String = match api_key {
            Some(k) => k.to_owned(),
            None => String::new(),
        };
        let local: bool = (match endpoint {
            Some(e) => holds(e, "localhost"),
            None => false,
        }) || key.as_str().is_empty();
        let api_endpoint: String = match endpoint {
            Some(e) => e.to_owned(),
            None => "https://api.openai.com/v1/chat/completions".to_owned(),
        };
        let model_name: String = match model {
            Some(m) => m.to_owned(),
            None => if local {
                "Qwen3VL-8B-Instruct-Q8_0.gguf".to_owned()
            } else {
                "gpt-4o-mini".to_owned()
            },
        };
        let base: String = match home {
            Some(h) => join(h, ".cache"),
            None => join("", ".cache"),
        };
        proof {
            reveal_strlit("");
            assert(""@ == Seq::<char>::empty());
        }
        let dir = join(join(base.as_str(), "lsix").as_str(), "ai_tags");
        AITaggingConfig {
            api_endpoint,
            api_key: key,
            model: model_name,
            max_tags: DEFAULT_MAX_TAGS,
            cache_dir: Some(dir),
            custom_prompt,
            debug: false,
        }
    }
}

/// The question of a prompt file: its text without the white space around
/// it, or none where nothing is left.
pub fn normalize_prompt(content: &str) -> (prompt: Option<String>)
    ensures
        text_view(prompt) == if trimmed(content@).len() == 0 {
            None
        } else {
            Some(trimmed(content@))
        },
{
    let bare = trim(&chars_of(content));
    if bare.len() == 0 {
        None
    } else {
        Some(string_of(&bare))
    }
}

/// A text with `with` in place of every `{}`, read from left to right.
pub open spec fn filled_in(s: Seq<char>, with: Seq<char>) -> Seq<char>
    decreases s.len(),
{
    if s.len() == 0 {
        s
    } else if s.len() >= 2 && s[0] == '{' && s[1] == '}' {
        with + filled_in(s.skip(2), with)
    } else {
        seq![s[0]] + filled_in(s.skip(1), with)
    }
}

/// Puts `with` in place of every `{}`.
pub fn fill_in(s: &Vec<char>, with: &Vec<char>) -> (r: Vec<char>)
    ensures
        r@ == filled_in(s@, with@),
{
    let mut r: Vec<char> = Vec::new();
    let mut i: usize = 0;
    assert(s@.skip(0) == s@);
    assert(Seq::<char>::empty() + filled_in(s@, with@) == filled_in(s@, with@));
    while i < s.len()
        invariant
            i <= s.len(),
            r@ + filled_in(s@.skip(i as int), with@) == filled_in(s@, with@),
        decreases s.len() - i,
    {
        let ghost rest = s@.skip(i as int);
        assert(rest[0] == s@[i as int]);
        let ghost before = r@;
        if s[i] == '{' && i + 1 < s.len() && s[i + 1] == '}' {
            assert(rest[1] == s@[i + 1]);
            assert(rest.skip(2) == s@.skip(i + 2));
            append(&mut r, with);
            assert((before + with@) + filled_in(s@.skip(i + 2), with@) == before + (with@
                + filled_in(s@.skip(i + 2), with@)));
            i = i + 2;
        } else {
            assert(rest.len() >= 2 ==> rest[1] == s@[i + 1]);
            assert(rest.skip(1) == s@.skip(i + 1));
            r.push(s[i]);
            assert(before.push(s@[i as int]) + filled_in(s@.skip(i + 1), with@) == before + (
            seq![s@[i as int]] + filled_in(s@.skip(i + 1), with@)));
            i = i + 1;
        }
    }
    assert(s@.skip(s@.len() as int) == Seq::<char>::empty());
    assert(r@ + Seq::<char>::empty() == r@);
    r
}

/// The question that is put to the model where no other is set, up to the
/// number of tags that it asks for.
pub const DEFAULT_PROMPT_HEAD: &'static str =
    "You are an expert image tagging and content rating system. Identify the MAIN SUBJECTS and SPECIFIC OBJECTS in this image, and provide content classification.\n\nFocus on:\n1. PRIMARY OBJECTS (clothing, products, items, people)\n2. SPECIFIC DETAILS (patterns, accessories, features)\n3. STYLE/GENRE (business, casual, cartoon, realistic)\n4. KEY ATTRIBUTES (colors, materials, mood)\n5. CONTENT CLASSIFICATION: Determine if content is appropriate for general audiences (SFW) or contains adult content (NSFW)\n\nCONTENT CLASSIFICATION GUIDELINES:\n- SFW (Safe For Work): Family-friendly content, no nudity, minimal skin exposure, no sexual content\n- NSFW (Not Safe For Work): Nudity, sexual content, excessive skin exposure, suggestive poses, adult themes\n- For anime/manga: Consider typical cultural norms, but flag explicit sexual content as NSFW\n- For artistic nudes: Generally NSFW unless clearly in educational/cultural context\n- For clothing: Bikinis/swimwear is context-dependent (beach/sport = often SFW, intimate setting = potentially NSFW)\n\nIGNORE background and minor details. Tag what the image is ABOUT.\n\nMANDATORY: You MUST provide exactly ";

/// The rest of the question that is put to the model where no other is
/// set.
pub const DEFAULT_PROMPT_TAIL: &'static str =
    " tags followed by content classification. Return ONLY comma-separated tags and classification in format: 'tag1, tag2, tag3, ... , sfw|nsfw'.\nTags should be: lowercase English, 1-2 words each, very specific.\nContent classification is MANDATORY and must be either 'sfw' (safe for work) or 'nsfw' (not safe for work) at the end.\nDO NOT provide any other text or explanation - ONLY the comma-separated tags and classification.\n\nExamples:\n- Photo of business suit: 'suit, formal, business, professional, office attire, sfw'\n- Cartoon rabbit with watch: 'cartoon, rabbit, watch, character, minimalist, sfw'\n- Beach photo: 'beach, ocean, sunset, sand, waves, horizon, tropical, sfw'\n- Portrait: 'portrait, person, face, smiling, casual, indoor, sfw'";

/// The question that is put to the model: the one that is set, with the
/// number of tags in place of every `{}`, or the default one, which names
/// the number of tags.
pub open spec fn prompt_of(custom: Option<Seq<char>>, max_tags: nat) -> Seq<char> {
    match custom {
        Some(text) => filled_in(text, decimal_digits(max_tags)),
        None => DEFAULT_PROMPT_HEAD@ + decimal_digits(max_tags) + DEFAULT_PROMPT_TAIL@,
    }
}

/// Writes the question that is put to the model.
pub fn build_prompt(config: &AITaggingConfig) -> (prompt: String)
    ensures
        prompt@ == prompt_of(text_view(config.custom_prompt), config.max_tags as nat),
{
    let number = crate::text::decimal_of(config.max_tags as u64);
    match &config.custom_prompt {
        Some(text) => string_of(&fill_in(&chars_of(text.as_str()), &number)),
        None => {
            let mut out = chars_of(DEFAULT_PROMPT_HEAD);
            append(&mut out, &number);
            append(&mut out, &chars_of(DEFAULT_PROMPT_TAIL));
            string_of(&out)
        },
    }
}

/// Whether an endpoint takes requests in the chat format with the image
/// as a data URL: it names `openai`, `localhost` or the chat completions
/// path.
pub open spec fn takes_chat_format(endpoint: Seq<char>) -> bool {
    has_substring(endpoint, "openai"@) || has_substring(endpoint, "localhost"@) || has_substring(
        endpoint,
        "v1/chat/completions"@,
    )
}

/// Tests whether an endpoint takes requests in the chat format.
pub fn uses_chat_format(endpoint: &str) -> (b: bool)
    ensures
        b == takes_chat_format(endpoint@),
{
    holds(endpoint, "openai") || holds(endpoint, "localhost") || holds(
        endpoint,
        "v1/chat/completions",
    )
}

/// The image as a data URL.
pub fn image_data_url(image_base64: &str) -> (url: String)
    ensures
        url@ == "data:image/png;base64,"@ + image_base64@,
{
    let mut out = chars_of("data:image/png;base64,");
    append(&mut out, &chars_of(image_base64));
    string_of(&out)
}

/// The authorization that is sent with a request: none without a key.
pub fn authorization(api_key: &str) -> (header: Option<String>)
    ensures
        text_view(header) == if api_key@.len() == 0 {
            None
        } else {
            Some("Bearer "@ + api_key@)
        },
{
    if api_key.is_empty() {
        None
    } else {
        let mut out = chars_of("Bearer ");
        append(&mut out, &chars_of(api_key));
        Some(string_of(&out))
    }
}

/// Tests whether a cached answer is still good: it is less than thirty
/// days old.
pub fn cache_is_fresh(now: i64, cached_at: i64) -> (fresh: bool)
    ensures
        fresh == (now - cached_at < CACHE_LIFETIME_SECS),
{
    (now as i128) - (cached_at as i128) < CACHE_LIFETIME_SECS as i128
}

/// The hash of a text under which its answer is cached.
pub open spec fn text_hash(s: Seq<char>) -> u64 {
    DefaultHasher::spec_finish(text_chunks(s))
}

/// The name of the file that caches the answer for an image: the hash of
/// its path in hexadecimal, with the extension `.json`.
pub open spec fn cache_file_name(image_path: Seq<char>) -> Seq<char> {
    hex_digits(text_hash(image_path) as nat) + ".json"@
}

/// Computes the hash of a text.
pub fn hash_text(s: &str) -> (h: u64)
    ensures
        h == text_hash(s@),
{
    let mut hasher = DefaultHasher::new();
    hasher.write(s.as_bytes());
    let mark: Vec<u8> = vec![0xffu8];
    assert(mark@ == seq![0xffu8]);
    hasher.write(mark.as_slice());
    assert(hasher@ == text_chunks(s@));
    hasher.finish()
}

/// Names the file that caches the answer for an image.
pub fn cache_file_path(cache_dir: &str, image_path: &str) -> (path: String)
    ensures
        path@ == path_joined(cache_dir@, cache_file_name(image_path@)),
{
    let mut name = hex_of(hash_text(image_path));
    append(&mut name, &chars_of(".json"));
    join(cache_dir, string_of(&name).as_str())
}

/// The files in which the answer for an image is looked for: under its
/// path as given, under its file name, and under its file name in the
/// current directory.
pub open spec fn cache_candidates(cache_dir: Seq<char>, image_path: Seq<char>) -> Seq<Seq<char>> {
    seq![path_joined(cache_dir, cache_file_name(image_path))] + (match path_file_name(
        image_path,
    ) {
        Some(name) => seq![
            path_joined(cache_dir, cache_file_name(name)),
            path_joined(cache_dir, cache_file_name("./"@ + name)),
        ],
        None => Seq::<Seq<char>>::empty(),
    })
}

/// Names the files in which the answer for an image is looked for.
pub fn get_cache_paths_to_try(cache_dir: &str, image_path: &str) -> (paths: Vec<String>)
    ensures
        texts(paths@) == cache_candidates(cache_dir@, image_path@),
{
    let mut paths: Vec<String> = Vec::new();
    paths.push(cache_file_path(cache_dir, image_path));
    assert(texts(paths@) == seq![path_joined(cache_dir@, cache_file_name(image_path@))]);
    match file_name(image_path) {
        Some(name) => {
            let ghost first = texts(paths@);
            paths.push(cache_file_path(cache_dir, name.as_str()));
            let mut local = chars_of("./");
            append(&mut local, &chars_of(name.as_str()));
            paths.push(cache_file_path(cache_dir, string_of(&local).as_str()));
            assert(texts(paths@) == first + seq![
                path_joined(cache_dir@, cache_file_name(name@)),
                path_joined(cache_dir@, cache_file_name("./"@ + name@)),
            ]);
        },
        None => {
            assert(texts(paths@) + Seq::<Seq<char>>::empty() == texts(paths@));
        },
    }
    paths
}

/// A reply of the model as far as it is read: texts, lists and records;
/// everything else counts as one.
#[derive(Debug)]
pub enum JsonValue {
    Text(String),
    List(Vec<JsonValue>),
    /// The fields of an object with their names; of two fields with one
    /// name the first counts.
    Record(Vec<(String, JsonValue)>),
    Other,
}

/// The first of the fields that has the given name.
pub open spec fn find_field(fields: Seq<(String, JsonValue)>, name: Seq<char>) -> Option<JsonValue>
    decreases fields.len(),
{
    if fields.len() == 0 {
        None
    } else if fields[0].0@ == name {
        Some(fields[0].1)
    } else {
        find_field(fields.skip(1), name)
    }
}

/// The field of a record with the given name; none for what is no record.
pub open spec fn field_of(value: JsonValue, name: Seq<char>) -> Option<JsonValue> {
    match value {
        JsonValue::Record(fields) => find_field(fields@, name),
        _ => None,
    }
}

/// The first item of a list; none for what is no list.
pub open spec fn first_of(value: JsonValue) -> Option<JsonValue> {
    match value {
        JsonValue::List(items) => if items@.len() > 0 {
            Some(items@[0])
        } else {
            None
        },
        _ => None,
    }
}

/// The characters of a text; none for what is no text.
pub open spec fn text_of(value: JsonValue) -> Option<Seq<char>> {
    match value {
        JsonValue::Text(t) => Some(t@),
        _ => None,
    }
}

/// The field of an optional record.
pub open spec fn then_field(value: Option<JsonValue>, name: Seq<char>) -> Option<JsonValue> {
    match value {
        Some(v) => field_of(v, name),
        None => None,
    }
}

/// The answer in a reply in the chat format: the text in the content of
/// the message of the first choice.
pub open spec fn chat_answer(reply: JsonValue) -> Option<Seq<char>> {
    let first = match field_of(reply, "choices"@) {
        Some(choices) => first_of(choices),
        None => None,
    };
    match then_field(then_field(first, "message"@), "content"@) {
        Some(content) => text_of(content),
        None => None,
    }
}

/// The answer in a reply: that of the chat format, else the text in the
/// content of the reply itself.
pub open spec fn answer_of(reply: JsonValue) -> Option<Seq<char>> {
    if chat_answer(reply) is Some {
        chat_answer(reply)
    } else {
        match field_of(reply, "content"@) {
            Some(content) => text_of(content),
            None => None,
        }
    }
}

/// Looks up the field of a record.
pub fn get_field<'a>(value: &'a JsonValue, name: &str) -> (r: Option<&'a JsonValue>)
    ensures
        match r {
            Some(v) => field_of(*value, name@) == Some(*v),
            None => field_of(*value, name@) is None,
        },
{
    match value {
        JsonValue::Record(fields) => {
            let wanted = name.to_owned();
            let mut i: usize = 0;
            assert(fields@.skip(0) == fields@);
            while i < fields.len()
                invariant
                    i <= fields.len(),
                    wanted@ == name@,
                    field_of(*value, name@) == find_field(fields@, name@),
                    find_field(fields@, name@) == find_field(fields@.skip(i as int), name@),
                decreases fields.len() - i,
            {
                assert(fields@.skip(i as int)[0] == fields@[i as int]);
                assert(fields@.skip(i as int).skip(1) == fields@.skip(i + 1));
                if fields[i].0 == wanted {
                    assert(fields@.skip(i as int)[0].0@ == name@);
                    assert(find_field(fields@.skip(i as int), name@) == Some(
                        fields@[i as int].1,
                    ));
                    return Some(&fields[i].1);
                }
                i = i + 1;
            }
            None
        },
        _ => None,
    }
}

fn text_in<'a>(value: Option<&'a JsonValue>) -> (r: Option<&'a String>)
    ensures
        match r {
            Some(t) => value is Some && text_of(*value->0) == Some(t@),
            None => value is None || text_of(*value->0) is None,
        },
{
    match value {
        Some(JsonValue::Text(t)) => Some(t),
        _ => None,
    }
}

fn chat_content<'a>(reply: &'a JsonValue) -> (r: Option<&'a String>)
    ensures
        match r {
            Some(t) => chat_answer(*reply) == Some(t@),
            None => chat_answer(*reply) is None,
        },
{
    let choices = match get_field(reply, "choices") {
        Some(c) => c,
        None => {
            return None;
        },
    };
    let first: &JsonValue = match choices {
        JsonValue::List(items) => {
            if items.len() > 0 {
                &items[0]
            } else {
                return None;
            }
        },
        _ => {
            return None;
        },
    };
    let message = match get_field(first, "message") {
        Some(m) => m,
        None => {
            return None;
        },
    };
    text_in(get_field(message, "content"))
}

/// Reads the answer of the model from its reply. Where the reply holds
/// none, the caller takes the whole reply for the answer.
pub fn extract_tags_from_response(reply: &JsonValue) -> (answer: Option<String>)
    ensures
        text_view(answer) == answer_of(*reply),
{
    match chat_content(reply) {
        Some(t) => Some(t.clone()),
        None => match text_in(get_field(reply, "content")) {
            Some(t) => Some(t.clone()),
            None => None,
        },
    }
}

/// A piece of an answer as a tag: without the white space around it, in
/// lower case.
pub open spec fn cleaned(piece: Seq<char>) -> Seq<char> {
    lowercase_of(trimmed(piece))
}

/// The tags among the pieces of an answer: those that are longer than two
/// bytes once cleaned.
pub open spec fn cleaned_parts(pieces: Seq<Seq<char>>) -> Seq<Seq<char>>
    decreases pieces.len(),
{
    if pieces.len() == 0 {
        Seq::<Seq<char>>::empty()
    } else if vstd::utf8::encode_utf8(cleaned(pieces.last())).len() > 2 {
        cleaned_parts(pieces.drop_last()).push(cleaned(pieces.last()))
    } else {
        cleaned_parts(pieces.drop_last())
    }
}

/// The parts of an answer: what stands between its commas, cleaned.
pub open spec fn answer_parts(answer: Seq<char>) -> Seq<Seq<char>> {
    cleaned_parts(split_on(answer, seq![',']))
}

/// Cuts an answer into its parts.
pub fn clean_tag_parts(answer: &str) -> (parts: Vec<String>)
    ensures
        texts(parts@) == answer_parts(answer@),
{
    let commas = vec![','];
    assert(commas@ == seq![',']);
    let pieces = split(&chars_of(answer), &commas);
    let mut parts: Vec<String> = Vec::new();
    let mut i: usize = 0;
    assert(texts_of(pieces@).take(0) == Seq::<Seq<char>>::empty());
    assert(texts(parts@) == Seq::<Seq<char>>::empty());
    while i < pieces.len()
        invariant
            i <= pieces.len(),
            texts(parts@) == cleaned_parts(texts_of(pieces@).take(i as int)),
        decreases pieces.len() - i,
    {
        let ghost prefix = texts_of(pieces@).take(i + 1);
        assert(prefix.drop_last() == texts_of(pieces@).take(i as int));
        assert(prefix.last() == pieces@[i as int]@);
        let bare = string_of(&trim(&pieces[i]));
        let lower = bare.as_str().to_lowercase();
        if lower.as_str().as_bytes().len() > 2 {
            let ghost before = parts@;
            parts.push(lower);
            assert(texts(parts@) == texts(before).push(cleaned(pieces@[i as int]@)));
        }
        i = i + 1;
    }
    assert(texts_of(pieces@).take(pieces@.len() as int) == texts_of(pieces@));
    parts
}

/// Whether a part of an answer rates the content.
pub open spec fn is_rating(part: Seq<char>) -> bool {
    part == "sfw"@ || part == "nsfw"@
}

/// The tags among the parts of an answer: the parts that rate nothing,
/// as many as are wanted.
pub open spec fn regular_tags(parts: Seq<Seq<char>>, max: nat) -> Seq<Seq<char>>
    decreases parts.len(),
{
    if parts.len() == 0 {
        Seq::<Seq<char>>::empty()
    } else if !is_rating(parts.last()) && regular_tags(parts.drop_last(), max).len() < max {
        regular_tags(parts.drop_last(), max).push(parts.last())
    } else {
        regular_tags(parts.drop_last(), max)
    }
}

/// The rating that an answer states: the last of its parts that rates the
/// content.
pub open spec fn stated_rating(parts: Seq<Seq<char>>) -> Option<Seq<char>>
    decreases parts.len(),
{
    if parts.len() == 0 {
        None
    } else if is_rating(parts.last()) {
        Some(parts.last())
    } else {
        stated_rating(parts.drop_last())
    }
}

fn is_text(s: &String, word: &str) -> (b: bool)
    ensures
        b == (s@ == word@),
{
    crate::text::same_chars(&chars_of(s.as_str()), &chars_of(word))
}

/// Tells the tags of an answer from its rating.
pub fn sort_out_tags(parts: &Vec<String>, max_tags: usize) -> (r: (Vec<String>, Option<String>))
    ensures
        texts(r.0@) == regular_tags(texts(parts@), max_tags as nat),
        text_view(r.1) == stated_rating(texts(parts@)),
{
    let mut tags: Vec<String> = Vec::new();
    let mut rating: Option<String> = None;
    let mut i: usize = 0;
    assert(texts(parts@).take(0) == Seq::<Seq<char>>::empty());
    assert(texts(tags@) == Seq::<Seq<char>>::empty());
    while i < parts.len()
        invariant
            i <= parts.len(),
            texts(tags@) == regular_tags(texts(parts@).take(i as int), max_tags as nat),
            text_view(rating) == stated_rating(texts(parts@).take(i as int)),
        decreases parts.len() - i,
    {
        let ghost prefix = texts(parts@).take(i + 1);
        assert(prefix.drop_last() == texts(parts@).take(i as int));
        assert(prefix.last() == parts@[i as int]@);
        if is_text(&parts[i], "sfw") || is_text(&parts[i], "nsfw") {
            rating = Some(parts[i].clone());
        } else if tags.len() < max_tags {
            let ghost before = tags@;
            tags.push(parts[i].clone());
            assert(texts(tags@) == texts(before).push(parts@[i as int]@));
        }
        i = i + 1;
    }
    assert(texts(parts@).take(parts@.len() as int) == texts(parts@));
    (tags, rating)
}

/// The words that suggest content for adults.
pub open spec fn adult_words() -> Seq<Seq<char>> {
    seq![
        "nude"@,
        "naked"@,
        "sex"@,
        "erotic"@,
        "adult"@,
        "porn"@,
        "sexy"@,
        "seductive"@,
        "nudity"@,
        "breast"@,
        "boob"@,
        "butt"@,
        "ass"@,
        "thigh"@,
        "underwear"@,
        "lingerie"@,
        "bikini"@,
        "swimsuit"@,
        "intimate"@,
        "erogenous"@,
        "arousal"@,
        "arousing"@,
        "provocative"@,
        "suggestive"@,
        "alluring"@,
        "tempting"@,
        "enticing"@,
        "sultry"@,
        "hentai"@,
        "ecchi"@,
        "bishoujo"@,
        "bishounen"@,
        "bishoku"@,
        "eromanga"@,
        "raunchy"@,
        "risque"@,
        "lascivious"@,
        "lewd"@,
        "lustful"@,
        "salacious"@,
        "indecent"@,
        "immodest"@,
        "improper"@,
        "unseemly"@,
        "skimpy"@,
        "revealing"@,
        "scantily"@,
        "scanty"@,
        "exposed"@,
        "exposing"@,
        "exposure"@,
        "exhibition"@,
        "undress"@,
        "undressed"@,
        "disrobe"@,
        "disrobed"@,
        "topless"@,
        "bottomless"@,
        "nipple"@,
        "areola"@,
        "genital"@,
        "genitals"@,
        "penis"@,
        "vagina"@,
        "pubic"@,
        "crotch"@,
        "groin"@,
        "thong"@,
        "micro"@,
        "transparent"@,
        "see-through"@,
        "sheer"@,
        "diaphanous"@,
        "gauzy"@,
        "gossamer"@,
        "lacy"@,
        "frilly"@,
        "smoldering"@,
        "smouldering"@,
    ]
}

/// Whether a tag in lower case holds a word that suggests content for
/// adults.
pub open spec fn suggests_adult(lower: Seq<char>) -> bool {
    exists|i: int| 0 <= i < adult_words().len() && has_substring(lower, adult_words()[i])
}

/// Tests whether a tag in lower case suggests content for adults.
pub fn suggests_adult_content(lower: &str) -> (b: bool)
    ensures
        b == suggests_adult(lower@),
{
    let chars = chars_of(lower);
    let words: Vec<&str> = vec![
        "nude",
        "naked",
        "sex",
        "erotic",
        "adult",
        "porn",
        "sexy",
        "seductive",
        "nudity",
        "breast",
        "boob",
        "butt",
        "ass",
        "thigh",
        "underwear",
        "lingerie",
        "bikini",
        "swimsuit",
        "intimate",
        "erogenous",
        "arousal",
        "arousing",
        "provocative",
        "suggestive",
        "alluring",
        "tempting",
        "enticing",
        "sultry",
        "hentai",
        "ecchi",
        "bishoujo",
        "bishounen",
        "bishoku",
        "eromanga",
        "raunchy",
        "risque",
        "lascivious",
        "lewd",
        "lustful",
        "salacious",
        "indecent",
        "immodest",
        "improper",
        "unseemly",
        "skimpy",
        "revealing",
        "scantily",
        "scanty",
        "exposed",
        "exposing",
        "exposure",
        "exhibition",
        "undress",
        "undressed",
        "disrobe",
        "disrobed",
        "topless",
        "bottomless",
        "nipple",
        "areola",
        "genital",
        "genitals",
        "penis",
        "vagina",
        "pubic",
        "crotch",
        "groin",
        "thong",
        "micro",
        "transparent",
        "see-through",
        "sheer",
        "diaphanous",
        "gauzy",
        "gossamer",
        "lacy",
        "frilly",
        "smoldering",
        "smouldering",
    ];
    assert(words@.len() == adult_words().len());
    let mut i: usize = 0;
    while i < words.len()
        invariant
            i <= words.len(),
            chars@ == lower@,
            words@.len() == adult_words().len(),
            forall|k: int| 0 <= k < words@.len() ==> words@[k]@ == adult_words()[k],
            forall|k: int| 0 <= k < i ==> !has_substring(lower@, adult_words()[k]),
        decreases words.len() - i,
    {
        if contains(&chars, &chars_of(words[i])) {
            return true;
        }
        i = i + 1;
    }
    false
}

/// Whether one of the tags, put in lower case, suggests content for
/// adults.
pub open spec fn any_suggests_adult(tags: Seq<Seq<char>>) -> bool {
    exists|k: int| 0 <= k < tags.len() && suggests_adult(lowercase_of(#[trigger] tags[k]))
}

/// The rating of an image: the one that the answer states, else one that
/// its tags suggest.
pub open spec fn rating_of(stated: Option<Seq<char>>, tags: Seq<Seq<char>>) -> Seq<char> {
    match stated {
        Some(r) => r,
        None => if any_suggests_adult(tags) {
            "nsfw"@
        } else {
            "sfw"@
        },
    }
}

/// Rates an image of which the answer states no rating.
pub fn infer_rating(tags: &Vec<String>) -> (rating: String)
    ensures
        rating@ == rating_of(None, texts(tags@)),
{
    let mut i: usize = 0;
    while i < tags.len()
        invariant
            i <= tags.len(),
            forall|k: int| 0 <= k < i ==> !suggests_adult(lowercase_of(#[trigger] texts(tags@)[k])),
        decreases tags.len() - i,
    {
        let lower = tags[i].as_str().to_lowercase();
        assert(texts(tags@)[i as int] == tags@[i as int]@);
        if suggests_adult_content(lower.as_str()) {
            return "nsfw".to_owned();
        }
        i = i + 1;
    }
    "sfw".to_owned()
}

/// Reads the answer of the model: its tags, as many as are wanted, and
/// the rating of the image. An answer without a tag is an error.
pub fn parse_tags(answer: &str, max_tags: usize) -> (r: Result<(Vec<String>, String), TagError>)
    ensures
        match r {
            Ok(found) => {
                &&& texts(found.0@) == regular_tags(answer_parts(answer@), max_tags as nat)
                &&& found.0@.len() > 0
                &&& found.1@ == rating_of(stated_rating(answer_parts(answer@)), texts(found.0@))
            },
            Err(e) => e == TagError::NoTags && regular_tags(
                answer_parts(answer@),
                max_tags as nat,
            ).len() == 0,
        },
{
    let parts = clean_tag_parts(answer);
    let (tags, stated) = sort_out_tags(&parts, max_tags);
    if tags.len() == 0 {
        return Err(TagError::NoTags);
    }
    let rating: String = match stated {
        Some(r) => r,
        None => infer_rating(&tags),
    };
    Ok((tags, rating))
}

/// Makes the tags of an image from the answer of the model. `now` is the
/// time in seconds since the epoch.
pub fn tags_from_answer(answer: &str, config: &AITaggingConfig, now: i64) -> (r: Result<
    AITags,
    TagError,
>)
    ensures
        match r {
            Ok(t) => {
                &&& texts(t.tags@) == regular_tags(answer_parts(answer@), config.max_tags as nat)
                &&& t.tags@.len() > 0
                &&& text_view(t.content_rating) == Some(
                    rating_of(stated_rating(answer_parts(answer@)), texts(t.tags@)),
                )
                &&& t.model@ == config.model@
                &&& t.timestamp == now
                &&& !t.cache_hit
            },
            Err(e) => e == TagError::NoTags && regular_tags(
                answer_parts(answer@),
                config.max_tags as nat,
            ).len() == 0,
        },
{
    match parse_tags(answer, config.max_tags) {
        Ok(found) => Ok(
            AITags {
                tags: found.0,
                content_rating: Some(found.1),
                model: config.model.clone(),
                timestamp: now,
                cache_hit: false,
            },
        ),
        Err(e) => Err(e),
    }
}

/// Marks tags as taken from the cache.
pub fn from_cache(cached: AITags) -> (t: AITags)
    ensures
        t == (AITags { cache_hit: true, ..cached }),
{
    AITags { cache_hit: true, ..cached }
}

/// How a run over many images went.
#[derive(Clone, Copy, Debug, PartialEq, Eq, Structural)]
pub struct TagTally {
    /// Images that got tags.
    pub success: usize,
    /// Images whose tags came from the cache.
    pub cached: usize,
    /// Images that got none.
    pub failed: usize,
}

/// How many of the outcomes are the given one.
pub open spec fn count_of(outcomes: Seq<Option<bool>>, wanted: Option<bool>) -> nat
    decreases outcomes.len(),
{
    if outcomes.len() == 0 {
        0
    } else {
        count_of(outcomes.drop_last(), wanted) + if outcomes.last() == wanted {
            1nat
        } else {
            0nat
        }
    }
}

/// Counts how a run went. An outcome is none for an image that got no
/// tags, and else tells whether its tags came from the cache.
pub fn tally(outcomes: &Vec<Option<bool>>) -> (t: TagTally)
    ensures
        t.cached == count_of(outcomes@, Some(true)),
        t.success == count_of(outcomes@, Some(true)) + count_of(outcomes@, Some(false)),
        t.failed == count_of(outcomes@, None),
        t.success + t.failed == outcomes@.len(),
{
    let mut t = TagTally { success: 0, cached: 0, failed: 0 };
    let mut i: usize = 0;
    assert(outcomes@.take(0) == Seq::<Option<bool>>::empty());
    while i < outcomes.len()
        invariant
            i <= outcomes.len(),
            t.cached == count_of(outcomes@.take(i as int), Some(true)),
            t.success == count_of(outcomes@.take(i as int), Some(true)) + count_of(
                outcomes@.take(i as int),
                Some(false),
            ),
            t.failed == count_of(outcomes@.take(i as int), None),
            t.success + t.failed == i,
        decreases outcomes.len() - i,
    {
        assert(outcomes@.take(i + 1).drop_last() == outcomes@.take(i as int));
        assert(outcomes@.take(i + 1).last() == outcomes@[i as int]);
        match outcomes[i] {
            Some(hit) => {
                t.success = t.success + 1;
                if hit {
                    t.cached = t.cached + 1;
                }
            },
            None => {
                t.failed = t.failed + 1;
            },
        }
        i = i + 1;
    }
    assert(outcomes@.take(outcomes@.len() as int) == outcomes@);
    t
}

} // verus!

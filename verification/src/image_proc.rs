//! The montage layout, the arguments of the montage and encoder runs, the
//! partition of the images into rows, the row cache and the order of the
//! output.
//!
//! Rendering itself is done by programs that the caller runs. What they are
//! told, which rows are rendered at all and in which order their bytes are
//! written is decided here.

use vstd::prelude::*;
use vstd::std_specs::hash::DefaultHasherAdditionalSpecFns;
use std::collections::hash_map::DefaultHasher;
use std::hash::Hasher;
use crate::filename::{process_image_path, process_label_with_mode, FilenameMode};
use crate::filename::{frame_path, label_of, shown_name};
use crate::paths::{extension, join, path_extension, path_joined};
use crate::text::{
    chars_of, decimal_digits, decimal_value, lowercase_of, parse_decimal, push_decimal, string_of,
    text_view, texts,
};

verus! {

/// Side of a tile in pixels, unless it is overridden.
pub const DEFAULT_TILE_SIZE: u32 = 360;

/// Smallest font size of a label.
pub const MIN_FONT_SIZE: u32 = 10;

/// Settings that take precedence over what the terminal reports, each as
/// the text that was given for it.
pub struct LayoutOverrides {
    /// Side of a tile in pixels.
    pub tile_size: Option<String>,
    /// Number of colours of a montage.
    pub colors: Option<String>,
    /// `0` for no drop shadow, anything else for one.
    pub shadow: Option<String>,
}

/// How the montage of a row is laid out.
#[derive(Debug, Clone)]
pub struct ImageConfig {
    pub tile_width: u32,
    pub tile_height: u32,
    pub tile_xspace: u32,
    pub tile_yspace: u32,
    pub num_tiles_per_row: u32,
    pub num_colors: u32,
    pub background: String,
    pub foreground: String,
    pub font_family: Option<String>,
    pub font_size: u32,
    pub shadow: bool,
}

/// The space left and right of each tile: less than half a percent of the
/// width of the terminal.
pub open spec fn margin_x(width: int) -> int {
    width / 201
}

/// The space above and below each tile.
pub open spec fn margin_y(width: int) -> int {
    margin_x(width) / 2
}

/// The width that one tile takes with its margins.
pub open spec fn tile_pitch(width: int, tile: int) -> int {
    tile + 2 * margin_x(width) + 1
}

/// How many tiles fit in a row; one at least.
pub open spec fn tiles_per_row(width: int, tile: int) -> int {
    let fit = width / tile_pitch(width, tile);
    if fit < 1 {
        1
    } else {
        fit
    }
}

/// The font size of the labels: a tenth of the tile, ten at least.
pub open spec fn font_size_for(tile: int) -> int {
    if tile / 10 < MIN_FONT_SIZE as int {
        MIN_FONT_SIZE as int
    } else {
        tile / 10
    }
}

/// The side of a tile: the setting where it is a number, else the default.
pub open spec fn tile_size_from(setting: Option<Seq<char>>) -> int {
    match setting {
        Some(t) => match decimal_value(t, u32::MAX as nat) {
            Some(n) => n as int,
            None => DEFAULT_TILE_SIZE as int,
        },
        None => DEFAULT_TILE_SIZE as int,
    }
}

/// The number of colours: the setting where it is a number, else what the
/// terminal has.
pub open spec fn colors_from(setting: Option<Seq<char>>, detected: int) -> int {
    match setting {
        Some(t) => match decimal_value(t, u32::MAX as nat) {
            Some(n) => n as int,
            None => detected,
        },
        None => detected,
    }
}

/// Whether tiles get a drop shadow: off unless a setting other than `0`
/// is given.
pub open spec fn shadow_from(setting: Option<Seq<char>>) -> bool {
    match setting {
        Some(t) => t != seq!['0'],
        None => false,
    }
}

fn number_setting(setting: &Option<String>) -> (r: Option<u32>)
    ensures
        match r {
            Some(n) => text_view(*setting) is Some && decimal_value(
                text_view(*setting)->0,
                u32::MAX as nat,
            ) == Some(n as nat),
            None => text_view(*setting) is None || decimal_value(
                text_view(*setting)->0,
                u32::MAX as nat,
            ) is None,
        },
{
    match setting {
        Some(t) => {
            let chars = chars_of(t.as_str());
            match parse_decimal(&chars, u32::MAX as u64) {
                Some(n) => Some(n as u32),
                None => None,
            }
        },
        None => None,
    }
}

impl LayoutOverrides {
    /// No setting given.
    pub fn none() -> (o: LayoutOverrides)
        ensures
            o.tile_size is None,
            o.colors is None,
            o.shadow is None,
    {
        LayoutOverrides { tile_size: None, colors: None, shadow: None }
    }
}

impl ImageConfig {
    /// What every layout holds: square tiles, at least one tile in a row,
    /// and a legible font.
    pub open spec fn wf(&self) -> bool {
        &&& self.tile_width == self.tile_height
        &&& self.num_tiles_per_row >= 1
        &&& self.font_size >= MIN_FONT_SIZE
    }

    /// Whether this is the layout for a terminal `width` pixels wide with
    /// `num_colors` colours and the given background and foreground, under
    /// the given settings.
    pub open spec fn is_layout_for(
        &self,
        width: u32,
        num_colors: u32,
        bg: Seq<char>,
        fg: Seq<char>,
        overrides: LayoutOverrides,
    ) -> bool {
        let tile = tile_size_from(text_view(overrides.tile_size));
        &&& self.tile_width as int == tile
        &&& self.tile_height as int == tile
        &&& self.tile_xspace as int == margin_x(width as int)
        &&& self.tile_yspace as int == margin_y(width as int)
        &&& self.num_tiles_per_row as int == tiles_per_row(width as int, tile)
        &&& self.num_colors as int == colors_from(text_view(overrides.colors), num_colors as int)
        &&& self.background@ == bg
        &&& self.foreground@ == fg
        &&& self.font_family is None
        &&& self.font_size as int == font_size_for(tile)
        &&& self.shadow == shadow_from(text_view(overrides.shadow))
    }

    /// The layout for a terminal of the given width, colours and colour
    /// scheme, with no setting overridden.
    pub fn from_terminal_width(width: u32, num_colors: u32, bg: &str, fg: &str) -> (c: ImageConfig)
        ensures
            c.wf(),
            c.is_layout_for(
                width,
                num_colors,
                bg@,
                fg@,
                LayoutOverrides { tile_size: None, colors: None, shadow: None },
            ),
    {
        let overrides = LayoutOverrides::none();
        ImageConfig::from_terminal_width_with(width, num_colors, bg, fg, &overrides)
    }

    /// The layout for a terminal of the given width, colours and colour
    /// scheme, under the given settings.
    pub fn from_terminal_width_with(
        width: u32,
        num_colors: u32,
        bg: &str,
        fg: &str,
        overrides: &LayoutOverrides,
    ) -> (c: ImageConfig)
        ensures
            c.wf(),
            c.is_layout_for(width, num_colors, bg@, fg@, *overrides),
    {
        let tile: u32 = match number_setting(&overrides.tile_size) {
            Some(n) => n,
            None => DEFAULT_TILE_SIZE,
        };
        let tile_xspace: u32 = width / 201;
        let tile_yspace: u32 = tile_xspace / 2;
        let pitch: u64 = tile as u64 + 2 * (tile_xspace as u64) + 1;
        let fit: u64 = width as u64 / pitch;
        assert(fit <= width) by (nonlinear_arith)
            requires
                fit == width as int / pitch as int,
                pitch >= 1,
        ;
        let num_tiles_per_row: u32 = if fit < 1 {
            1
        } else {
            fit as u32
        };
        let font_size: u32 = if tile / 10 < MIN_FONT_SIZE {
            MIN_FONT_SIZE
        } else {
            tile / 10
        };
        let colors: u32 = match number_setting(&overrides.colors) {
            Some(n) => n,
            None => num_colors,
        };
        let shadow: bool = match &overrides.shadow {
            Some(t) => {
                let chars = chars_of(t.as_str());
                !(chars.len() == 1 && chars[0] == '0')
            },
            None => false,
        };
        proof {
            if overrides.shadow is Some {
                let t = overrides.shadow->0@;
                if t.len() == 1 && t[0] == '0' {
                    assert(t == seq!['0']);
                } else if t.len() == 1 {
                    assert(seq!['0'][0] == '0');
                } else {
                    assert(seq!['0'].len() == 1);
                }
            }
        }
        ImageConfig {
            tile_width: tile,
            tile_height: tile,
            tile_xspace,
            tile_yspace,
            num_tiles_per_row,
            num_colors: colors,
            background: bg.to_owned(),
            foreground: fg.to_owned(),
            font_family: None,
            font_size,
            shadow,
        }
    }
}

/// A terminal wide enough for one tile with its margins holds at least one
/// tile in a row without any rounding up, and the tiles of a row fit in
/// its width; the font size never falls below ten.
pub proof fn layout_bounds(width: int, tile: int)
    requires
        0 <= width,
        0 <= tile,
    ensures
        tiles_per_row(width, tile) >= 1,
        width >= tile_pitch(width, tile) ==> width / tile_pitch(width, tile) >= 1,
        width >= tile_pitch(width, tile) ==> tiles_per_row(width, tile) == width / tile_pitch(
            width,
            tile,
        ),
        width >= tile_pitch(width, tile) ==> tiles_per_row(width, tile) * tile_pitch(width, tile)
            <= width,
        font_size_for(tile) >= 10,
{
    let pitch = tile_pitch(width, tile);
    assert(pitch >= 1);
    if width >= pitch {
        assert(width / pitch >= 1 && (width / pitch) * pitch <= width) by (nonlinear_arith)
            requires
                width >= pitch,
                pitch >= 1,
        ;
    }
}

/// One image of a row: the path that the montage reads and the label
/// drawn beneath the tile.
#[derive(Debug)]
pub struct ImageEntry {
    pub path: String,
    pub label: String,
}

impl Clone for ImageEntry {
    fn clone(&self) -> (r: ImageEntry)
        ensures
            r == *self,
    {
        ImageEntry { path: self.path.clone(), label: self.label.clone() }
    }
}

fn push_text(out: &mut Vec<String>, s: String)
    ensures
        texts(final(out)@) == texts(old(out)@).push(s@),
        final(out)@.len() == old(out)@.len() + 1,
{
    out.push(s);
    assert(texts(out@) == texts(old(out)@).push(s@));
}

fn push_str(out: &mut Vec<String>, s: &str)
    ensures
        texts(final(out)@) == texts(old(out)@).push(s@),
        final(out)@.len() == old(out)@.len() + 1,
{
    push_text(out, s.to_owned());
}

/// The grid of a row of `count` tiles: `count` columns, one row.
pub open spec fn tile_text(count: nat) -> Seq<char> {
    decimal_digits(count) + seq!['x', '1']
}

/// The geometry of a tile: its size, shrinking larger images only and
/// never enlarging smaller ones, and its margins.
pub open spec fn geometry_text(c: ImageConfig) -> Seq<char> {
    decimal_digits(c.tile_width as nat) + seq!['x'] + decimal_digits(c.tile_height as nat) + seq![
        '>',
        '+',
    ] + decimal_digits(c.tile_xspace as nat) + seq!['+'] + decimal_digits(c.tile_yspace as nat)
}

/// The options of the montage of a row of `count` tiles: the grid, the
/// tile geometry, the colours, orientation by the image's own metadata,
/// the drop shadow if there is one, and the font.
pub open spec fn montage_options(c: ImageConfig, count: nat) -> Seq<Seq<char>> {
    seq![
        "-tile"@,
        tile_text(count),
        "-geometry"@,
        geometry_text(c),
        "-background"@,
        c.background@,
        "-fill"@,
        c.foreground@,
        "-auto-orient"@,
    ] + (if c.shadow {
        seq!["-shadow"@]
    } else {
        Seq::<Seq<char>>::empty()
    }) + (match c.font_family {
        Some(family) => seq!["-font"@, family@],
        None => Seq::<Seq<char>>::empty(),
    }) + seq!["-pointsize"@, decimal_digits(c.font_size as nat)]
}

/// The arguments of the encoder: the colour budget and the output format.
pub open spec fn convert_arguments(c: ImageConfig) -> Seq<Seq<char>> {
    seq!["-colors"@, decimal_digits(c.num_colors as nat), "sixel:-"@]
}

impl ImageConfig {
    /// The options of the montage of a row of `count` tiles.
    pub fn get_montage_options(&self, count: usize) -> (opts: Vec<String>)
        ensures
            texts(opts@) == montage_options(*self, count as nat),
    {
        let mut opts: Vec<String> = Vec::new();
        assert(texts(opts@) == Seq::<Seq<char>>::empty());
        push_str(&mut opts, "-tile");
        let mut tile: Vec<char> = Vec::new();
        push_decimal(&mut tile, count as u64);
        tile.push('x');
        tile.push('1');
        assert(tile@ == tile_text(count as nat));
        push_text(&mut opts, string_of(&tile));
        push_str(&mut opts, "-geometry");
        let mut geometry: Vec<char> = Vec::new();
        push_decimal(&mut geometry, self.tile_width as u64);
        geometry.push('x');
        push_decimal(&mut geometry, self.tile_height as u64);
        geometry.push('>');
        geometry.push('+');
        push_decimal(&mut geometry, self.tile_xspace as u64);
        geometry.push('+');
        push_decimal(&mut geometry, self.tile_yspace as u64);
        assert(geometry@ == geometry_text(*self));
        push_text(&mut opts, string_of(&geometry));
        push_str(&mut opts, "-background");
        push_text(&mut opts, self.background.clone());
        push_str(&mut opts, "-fill");
        push_text(&mut opts, self.foreground.clone());
        push_str(&mut opts, "-auto-orient");
        let ghost fixed = texts(opts@);
        assert(fixed == seq![
            "-tile"@,
            tile_text(count as nat),
            "-geometry"@,
            geometry_text(*self),
            "-background"@,
            self.background@,
            "-fill"@,
            self.foreground@,
            "-auto-orient"@,
        ]);
        if self.shadow {
            push_str(&mut opts, "-shadow");
        }
        let ghost shadowed = texts(opts@);
        assert(shadowed == fixed + (if self.shadow {
            seq!["-shadow"@]
        } else {
            Seq::<Seq<char>>::empty()
        }));
        match &self.font_family {
            Some(family) => {
                push_str(&mut opts, "-font");
                push_text(&mut opts, family.clone());
            },
            None => {},
        }
        let ghost fonted = texts(opts@);
        assert(fonted == shadowed + (match self.font_family {
            Some(family) => seq!["-font"@, family@],
            None => Seq::<Seq<char>>::empty(),
        }));
        push_str(&mut opts, "-pointsize");
        push_text(&mut opts, string_of(&crate::text::decimal_of(self.font_size as u64)));
        assert(texts(opts@) == fonted + seq![
            "-pointsize"@,
            decimal_digits(self.font_size as nat),
        ]);
        opts
    }

    /// The arguments of the encoder run.
    pub fn get_convert_arguments(&self) -> (args: Vec<String>)
        ensures
            texts(args@) == convert_arguments(*self),
    {
        let mut args: Vec<String> = Vec::new();
        assert(texts(args@) == Seq::<Seq<char>>::empty());
        push_str(&mut args, "-colors");
        push_text(&mut args, string_of(&crate::text::decimal_of(self.num_colors as u64)));
        push_str(&mut args, "sixel:-");
        assert(texts(args@) == convert_arguments(*self));
        args
    }
}

/// How many rows `n` images fill with `per_row` tiles in a row.
pub open spec fn row_count(n: int, per_row: int) -> int {
    (n + per_row - 1) / per_row
}

/// The images of row `i`: the next `per_row` of them, or those that are
/// left. The last row is not padded.
pub open spec fn row_of(images: Seq<ImageEntry>, per_row: int, i: int) -> Seq<ImageEntry> {
    images.subrange(
        i * per_row,
        if (i + 1) * per_row < images.len() {
            (i + 1) * per_row
        } else {
            images.len() as int
        },
    )
}

/// The images of all rows, one row after the other.
pub open spec fn rows_in_order(rows: Seq<Vec<ImageEntry>>) -> Seq<ImageEntry>
    decreases rows.len(),
{
    if rows.len() == 0 {
        Seq::<ImageEntry>::empty()
    } else {
        rows_in_order(rows.drop_last()) + rows.last()@
    }
}

proof fn lemma_row_count(n: int, per_row: int, k: int)
    requires
        per_row >= 1,
        k >= 0,
        (k - 1) * per_row < n <= k * per_row,
        n >= 0,
    ensures
        k == row_count(n, per_row),
{
    let m = n + per_row - 1;
    assert(k * per_row <= m < k * per_row + per_row) by (nonlinear_arith)
        requires
            (k - 1) * per_row < n <= k * per_row,
            m == n + per_row - 1,
    ;
    vstd::arithmetic::div_mod::lemma_div_multiples_vanish_fancy(k, m - k * per_row, per_row);
    assert(per_row * k + (m - k * per_row) == m) by (nonlinear_arith);
}

/// Cuts the images into rows of `per_row` tiles, in their order. Every row
/// holds at least one image, and all but the last hold `per_row`.
pub fn partition_rows(images: &Vec<ImageEntry>, per_row: usize) -> (rows: Vec<Vec<ImageEntry>>)
    requires
        per_row >= 1,
    ensures
        rows@.len() == row_count(images@.len() as int, per_row as int),
        forall|i: int|
            0 <= i < rows@.len() ==> (#[trigger] rows@[i])@ == row_of(images@, per_row as int, i),
        forall|i: int| 0 <= i < rows@.len() ==> 1 <= (#[trigger] rows@[i])@.len() <= per_row,
        forall|i: int| 0 <= i < rows@.len() - 1 ==> (#[trigger] rows@[i])@.len() == per_row,
        rows_in_order(rows@) == images@,
{
    let n: usize = images.len();
    let mut rows: Vec<Vec<ImageEntry>> = Vec::new();
    let mut start: usize = 0;
    assert(images@.subrange(0, 0) == Seq::<ImageEntry>::empty());
    assert(0 * per_row == 0) by (nonlinear_arith);
    while start < n
        invariant
            n == images@.len(),
            per_row >= 1,
            start <= n,
            start == n || start == rows@.len() * per_row,
            start == n ==> (rows@.len() - 1) * per_row < n <= rows@.len() * per_row || n == 0,
            n == 0 ==> rows@.len() == 0,
            forall|i: int|
                0 <= i < rows@.len() ==> (#[trigger] rows@[i])@ == row_of(
                    images@,
                    per_row as int,
                    i,
                ),
            forall|i: int| 0 <= i < rows@.len() ==> 1 <= (#[trigger] rows@[i])@.len() <= per_row,
            forall|i: int|
                0 <= i < rows@.len() && (i < rows@.len() - 1 || start < n) ==> (
                #[trigger] rows@[i])@.len() == per_row,
            rows_in_order(rows@) == images@.subrange(0, start as int),
        decreases n - start,
    {
        let end: usize = if per_row < n - start {
            start + per_row
        } else {
            n
        };
        let ghost k = rows@.len() as int;
        assert((k + 1) * per_row == start + per_row) by (nonlinear_arith)
            requires
                start == k * per_row,
        ;
        let mut row: Vec<ImageEntry> = Vec::new();
        let mut j: usize = start;
        while j < end
            invariant
                start <= j <= end <= n,
                n == images@.len(),
                row@ == images@.subrange(start as int, j as int),
            decreases end - j,
        {
            row.push(images[j].clone());
            assert(images@.subrange(start as int, j + 1) == images@.subrange(
                start as int,
                j as int,
            ).push(images@[j as int]));
            j = j + 1;
        }
        assert(row@ == row_of(images@, per_row as int, k));
        let ghost before = rows@;
        rows.push(row);
        assert(rows@.drop_last() == before);
        assert(images@.subrange(0, end as int) == images@.subrange(0, start as int)
            + images@.subrange(start as int, end as int));
        assert(end == n ==> (k + 1 - 1) * per_row < n <= (k + 1) * per_row) by (nonlinear_arith)
            requires
                start == k * per_row,
                start < n,
                end == n ==> n - start <= per_row,
                (k + 1) * per_row == start + per_row,
        ;
        start = end;
    }
    proof {
        if n > 0 {
            lemma_row_count(n as int, per_row as int, rows@.len() as int);
        } else {
            assert((per_row - 1) / (per_row as int) == 0) by (nonlinear_arith)
                requires
                    per_row >= 1,
            ;
        }
        assert(images@.subrange(0, n as int) == images@);
    }
    rows
}

/// The bytes of the rows that were rendered, one row after the other; a
/// row that failed contributes nothing.
pub open spec fn joined_rows(rows: Seq<Option<Vec<u8>>>) -> Seq<u8>
    decreases rows.len(),
{
    if rows.len() == 0 {
        Seq::<u8>::empty()
    } else {
        joined_rows(rows.drop_last()) + (match rows.last() {
            Some(bytes) => bytes@,
            None => Seq::<u8>::empty(),
        })
    }
}

/// The output begins with the bytes of the rows before any given row,
/// followed by the bytes of that row: a row is never written before one
/// that precedes it in the input.
pub proof fn rows_are_written_in_order(rows: Seq<Option<Vec<u8>>>, i: int)
    requires
        0 <= i < rows.len(),
    ensures
        joined_rows(rows.take(i + 1)) == joined_rows(rows.take(i)) + (match rows[i] {
            Some(bytes) => bytes@,
            None => Seq::<u8>::empty(),
        }),
        joined_rows(rows.take(i + 1)).is_prefix_of(joined_rows(rows)),
    decreases rows.len() - i,
{
    assert(rows.take(i + 1).drop_last() == rows.take(i));
    assert(rows.take(i + 1).last() == rows[i]);
    if i + 1 < rows.len() {
        rows_are_written_in_order(rows, i + 1);
        let shorter = joined_rows(rows.take(i + 1));
        let longer = joined_rows(rows.take(i + 2));
        let all = joined_rows(rows);
        assert(shorter.is_prefix_of(longer)) by {
            assert(longer.subrange(0, shorter.len() as int) == shorter);
        }
        assert(shorter.is_prefix_of(all)) by {
            assert(all.subrange(0, longer.len() as int) == longer);
            assert(all.subrange(0, shorter.len() as int) == longer.subrange(
                0,
                shorter.len() as int,
            ));
        }
    } else {
        assert(rows.take(i + 1) == rows);
        assert(joined_rows(rows).subrange(0, joined_rows(rows).len() as int) == joined_rows(rows));
    }
}

/// Joins the bytes of the rows in the order of the rows, whatever the
/// order in which they were rendered. A row that failed is left out and
/// the rows after it are still written.
pub fn assemble_output(rows: &Vec<Option<Vec<u8>>>) -> (out: Vec<u8>)
    ensures
        out@ == joined_rows(rows@),
{
    let mut out: Vec<u8> = Vec::new();
    let mut i: usize = 0;
    assert(rows@.take(0) == Seq::<Option<Vec<u8>>>::empty());
    while i < rows.len()
        invariant
            i <= rows.len(),
            out@ == joined_rows(rows@.take(i as int)),
        decreases rows.len() - i,
    {
        assert(rows@.take(i + 1).drop_last() == rows@.take(i as int));
        assert(rows@.take(i + 1).last() == rows@[i as int]);
        match &rows[i] {
            Some(bytes) => {
                let ghost before = out@;
                let mut j: usize = 0;
                while j < bytes.len()
                    invariant
                        j <= bytes.len(),
                        out@ == before + bytes@.take(j as int),
                    decreases bytes.len() - j,
                {
                    out.push(bytes[j]);
                    assert(bytes@.take(j + 1) == bytes@.take(j as int).push(bytes@[j as int]));
                    j = j + 1;
                }
                assert(bytes@.take(bytes@.len() as int) == bytes@);
            },
            None => {
                assert(out@ + Seq::<u8>::empty() == out@);
            },
        }
        i = i + 1;
    }
    assert(rows@.take(rows@.len() as int) == rows@);
    out
}

/// The rows that failed, in ascending order.
pub fn failed_rows(rows: &Vec<Option<Vec<u8>>>) -> (failed: Vec<usize>)
    ensures
        forall|k: int| 0 <= k < failed@.len() ==> failed@[k] < rows@.len() && rows@[failed@[k] as int] is None,
        forall|i: int| 0 <= i < rows@.len() && rows@[i] is None ==> failed@.contains(i as usize),
        forall|a: int, b: int| 0 <= a < b < failed@.len() ==> failed@[a] < failed@[b],
{
    let mut failed: Vec<usize> = Vec::new();
    let mut i: usize = 0;
    while i < rows.len()
        invariant
            i <= rows.len(),
            forall|k: int| 0 <= k < failed@.len() ==> failed@[k] < i && rows@[failed@[k] as int] is None,
            forall|j: int| 0 <= j < i && rows@[j] is None ==> failed@.contains(j as usize),
            forall|a: int, b: int| 0 <= a < b < failed@.len() ==> failed@[a] < failed@[b],
        decreases rows.len() - i,
    {
        if rows[i].is_none() {
            let ghost before = failed@;
            failed.push(i);
            assert forall|j: int| 0 <= j < i + 1 && rows@[j] is None implies failed@.contains(
                j as usize,
            ) by {
                if j < i {
                    let k = choose|k: int| 0 <= k < before.len() && before[k] == j as usize;
                    assert(failed@[k] == j as usize);
                } else {
                    assert(failed@[failed@.len() - 1] == i);
                }
            }
        }
        i = i + 1;
    }
    failed
}

/// A point in time: seconds since the epoch and the nanoseconds of the
/// second begun.
#[derive(Clone, Copy, Debug, PartialEq, Eq, Structural)]
pub struct Timestamp {
    pub secs: u64,
    pub nanos: u32,
}

impl Timestamp {
    /// Whether this point in time is no later than `other`.
    pub open spec fn at_most(self, other: Timestamp) -> bool {
        self.secs < other.secs || (self.secs == other.secs && self.nanos <= other.nanos)
    }

    /// Tests whether this point in time is no later than `other`.
    pub fn is_at_most(&self, other: &Timestamp) -> (b: bool)
        ensures
            b == self.at_most(*other),
    {
        self.secs < other.secs || (self.secs == other.secs && self.nanos <= other.nanos)
    }
}

/// One image of a row with what the file system says of its file.
#[derive(Debug)]
pub struct RowItem {
    pub entry: ImageEntry,
    /// Whether the file is there.
    pub exists: bool,
    /// When the file was last modified, where that is known.
    pub modified: Option<Timestamp>,
}

/// What the fingerprint takes of a text: its bytes and an end mark.
pub open spec fn text_chunks(s: Seq<char>) -> Seq<Seq<u8>> {
    seq![vstd::utf8::encode_utf8(s), seq![0xffu8]]
}

/// What the fingerprint takes of an image: its path and the second of its
/// last modification, where that is known.
pub open spec fn item_chunks(item: RowItem) -> Seq<Seq<u8>> {
    text_chunks(item.entry.path@) + (match item.modified {
        Some(t) => seq![vstd::bytes::spec_u64_to_le_bytes(t.secs)],
        None => Seq::<Seq<u8>>::empty(),
    })
}

/// What the fingerprint takes of the images of a row, in their order.
pub open spec fn items_chunks(items: Seq<RowItem>) -> Seq<Seq<u8>>
    decreases items.len(),
{
    if items.len() == 0 {
        Seq::<Seq<u8>>::empty()
    } else {
        items_chunks(items.drop_last()) + item_chunks(items.last())
    }
}

/// What the fingerprint takes of the layout: the tile size, the colour
/// budget, background, foreground and the shadow.
pub open spec fn config_chunks(c: ImageConfig) -> Seq<Seq<u8>> {
    seq![
        vstd::bytes::spec_u32_to_le_bytes(c.tile_width),
        vstd::bytes::spec_u32_to_le_bytes(c.tile_height),
        vstd::bytes::spec_u32_to_le_bytes(c.num_colors),
    ] + text_chunks(c.background@) + text_chunks(c.foreground@) + seq![
        seq![
            if c.shadow {
                1u8
            } else {
                0u8
            },
        ],
    ]
}

/// The fingerprint of a row: a hash over its images and the layout.
pub open spec fn row_fingerprint(items: Seq<RowItem>, c: ImageConfig) -> u64 {
    DefaultHasher::spec_finish(items_chunks(items) + config_chunks(c))
}

fn write_text(hasher: &mut DefaultHasher, s: &str)
    ensures
        final(hasher)@ == old(hasher)@ + text_chunks(s@),
{
    hasher.write(s.as_bytes());
    let mark: Vec<u8> = vec![0xffu8];
    hasher.write(mark.as_slice());
    assert(mark@ == seq![0xffu8]);
    assert(hasher@ == old(hasher)@ + text_chunks(s@));
}

/// Computes the fingerprint of a row.
pub fn fingerprint(items: &Vec<RowItem>, config: &ImageConfig) -> (h: u64)
    ensures
        h == row_fingerprint(items@, *config),
{
    let mut hasher = DefaultHasher::new();
    let mut i: usize = 0;
    assert(items@.take(0) == Seq::<RowItem>::empty());
    while i < items.len()
        invariant
            i <= items.len(),
            hasher@ == items_chunks(items@.take(i as int)),
        decreases items.len() - i,
    {
        assert(items@.take(i + 1).drop_last() == items@.take(i as int));
        assert(items@.take(i + 1).last() == items@[i as int]);
        let ghost before = hasher@;
        write_text(&mut hasher, items[i].entry.path.as_str());
        match items[i].modified {
            Some(t) => {
                let secs = vstd::bytes::u64_to_le_bytes(t.secs);
                hasher.write(secs.as_slice());
                assert(hasher@ == before + item_chunks(items@[i as int]));
            },
            None => {
                assert(hasher@ == before + item_chunks(items@[i as int]));
            },
        }
        i = i + 1;
    }
    assert(items@.take(items@.len() as int) == items@);
    let ghost of_items = hasher@;
    let w = vstd::bytes::u32_to_le_bytes(config.tile_width);
    hasher.write(w.as_slice());
    let h = vstd::bytes::u32_to_le_bytes(config.tile_height);
    hasher.write(h.as_slice());
    let c = vstd::bytes::u32_to_le_bytes(config.num_colors);
    hasher.write(c.as_slice());
    write_text(&mut hasher, config.background.as_str());
    write_text(&mut hasher, config.foreground.as_str());
    let flag: Vec<u8> = if config.shadow {
        vec![1u8]
    } else {
        vec![0u8]
    };
    assert(flag@ == seq![
        if config.shadow {
            1u8
        } else {
            0u8
        },
    ]);
    let ghost head = hasher@;
    assert(head == of_items + seq![w@, h@, c@] + text_chunks(config.background@) + text_chunks(
        config.foreground@,
    ));
    hasher.write(flag.as_slice());
    assert(hasher@ == head + seq![flag@]);
    assert(hasher@ == of_items + config_chunks(*config));
    hasher.finish()
}

/// The name under which the bytes of a row are cached: its fingerprint in
/// hexadecimal.
pub fn generate_cache_key(items: &Vec<RowItem>, config: &ImageConfig) -> (key: String)
    ensures
        key@ == crate::text::hex_digits(row_fingerprint(items@, *config) as nat),
{
    string_of(&crate::text::hex_of(fingerprint(items, config)))
}

/// Whether two rows hold the same paths, last modified in the same
/// seconds.
pub open spec fn same_sources(a: Seq<RowItem>, b: Seq<RowItem>) -> bool {
    &&& a.len() == b.len()
    &&& forall|i: int|
        0 <= i < a.len() ==> {
            &&& (#[trigger] a[i]).entry.path@ == b[i].entry.path@
            &&& match (a[i].modified, b[i].modified) {
                (Some(s), Some(t)) => s.secs == t.secs,
                (None, None) => true,
                _ => false,
            }
        }
}

/// Whether two layouts render alike as far as the fingerprint looks.
pub open spec fn same_rendering(a: ImageConfig, b: ImageConfig) -> bool {
    &&& a.tile_width == b.tile_width
    &&& a.tile_height == b.tile_height
    &&& a.num_colors == b.num_colors
    &&& a.background@ == b.background@
    &&& a.foreground@ == b.foreground@
    &&& a.shadow == b.shadow
}

/// A second run over the same files, unchanged, with the same layout
/// computes the same fingerprint for every row.
pub proof fn fingerprint_is_stable(a: Seq<RowItem>, ca: ImageConfig, b: Seq<RowItem>, cb: ImageConfig)
    requires
        same_sources(a, b),
        same_rendering(ca, cb),
    ensures
        row_fingerprint(a, ca) == row_fingerprint(b, cb),
    decreases a.len(),
{
    lemma_same_chunks(a, b);
}

proof fn lemma_same_chunks(a: Seq<RowItem>, b: Seq<RowItem>)
    requires
        same_sources(a, b),
    ensures
        items_chunks(a) == items_chunks(b),
    decreases a.len(),
{
    if a.len() > 0 {
        assert(a.last() == a[a.len() - 1]);
        assert(b.last() == b[a.len() - 1]);
        assert(same_sources(a.drop_last(), b.drop_last())) by {
            assert forall|i: int| 0 <= i < a.drop_last().len() implies {
                &&& (#[trigger] a.drop_last()[i]).entry.path@ == b.drop_last()[i].entry.path@
                &&& match (a.drop_last()[i].modified, b.drop_last()[i].modified) {
                    (Some(s), Some(t)) => s.secs == t.secs,
                    (None, None) => true,
                    _ => false,
                }
            } by {
                assert(a.drop_last()[i] == a[i]);
                assert(b.drop_last()[i] == b[i]);
            }
        }
        lemma_same_chunks(a.drop_last(), b.drop_last());
    }
}

/// Whether the cached bytes of a row are current: there is an artifact
/// under the fingerprint of the row, every source file is there, and none
/// was modified after the artifact.
pub open spec fn cache_is_current(cache: Option<Timestamp>, items: Seq<RowItem>) -> bool {
    &&& cache is Some
    &&& forall|i: int|
        0 <= i < items.len() ==> {
            &&& (#[trigger] items[i]).exists
            &&& match items[i].modified {
                Some(t) => t.at_most(cache->0),
                None => true,
            }
        }
}

/// Tests whether the cached bytes of a row are current. `cache` is when
/// the artifact under the fingerprint of the row was last modified, or
/// none where there is no such artifact.
pub fn is_cache_valid(cache: Option<Timestamp>, items: &Vec<RowItem>) -> (valid: bool)
    ensures
        valid == cache_is_current(cache, items@),
{
    match cache {
        None => false,
        Some(written) => {
            let mut i: usize = 0;
            while i < items.len()
                invariant
                    i <= items.len(),
                    cache == Some(written),
                    forall|k: int|
                        0 <= k < i ==> {
                            &&& (#[trigger] items@[k]).exists
                            &&& match items@[k].modified {
                                Some(t) => t.at_most(written),
                                None => true,
                            }
                        },
                decreases items.len() - i,
            {
                if !items[i].exists {
                    return false;
                }
                match items[i].modified {
                    Some(t) => {
                        if !t.is_at_most(&written) {
                            return false;
                        }
                    },
                    None => {},
                }
                i = i + 1;
            }
            true
        },
    }
}

/// Once a row was rendered and cached, and until one of its files is
/// touched again or goes away, the row is taken from the cache: a second
/// run over unchanged files writes the bytes that the first one cached.
pub proof fn unchanged_row_is_reused(items: Seq<RowItem>, cached_at: Timestamp)
    requires
        forall|i: int| 0 <= i < items.len() ==> (#[trigger] items[i]).exists,
        forall|i: int|
            0 <= i < items.len() && (#[trigger] items[i]).modified is Some
                ==> items[i].modified->0.at_most(cached_at),
    ensures
        cache_is_current(Some(cached_at), items),
{
}

/// Whether an image can be rendered: it has a path and its file is there.
pub open spec fn is_renderable(item: RowItem) -> bool {
    item.entry.path@.len() > 0 && item.exists
}

/// How many images of a row can be rendered.
pub open spec fn renderable_count(items: Seq<RowItem>) -> nat
    decreases items.len(),
{
    if items.len() == 0 {
        0
    } else {
        renderable_count(items.drop_last()) + (if is_renderable(items.last()) {
            1nat
        } else {
            0nat
        })
    }
}

/// For every image that can be rendered, in the order of the row, its
/// label and its path.
pub open spec fn label_arguments(items: Seq<RowItem>) -> Seq<Seq<char>>
    decreases items.len(),
{
    if items.len() == 0 {
        Seq::<Seq<char>>::empty()
    } else if is_renderable(items.last()) {
        label_arguments(items.drop_last()) + seq![
            "-label"@,
            items.last().entry.label@,
            items.last().entry.path@,
        ]
    } else {
        label_arguments(items.drop_last())
    }
}

/// The arguments of the montage of a row: the options for as many tiles as
/// can be rendered, the images with their labels, and the output format.
pub open spec fn montage_arguments(items: Seq<RowItem>, c: ImageConfig) -> Seq<Seq<char>> {
    montage_options(c, renderable_count(items)) + label_arguments(items) + seq!["gif:-"@]
}

/// How the bytes of a row are had.
#[derive(Debug)]
pub enum RowPlan {
    /// The cached bytes are current: they are the row.
    Reuse,
    /// Run the montage with the first arguments and the encoder with the
    /// second; the bytes that come out are the row, and go to the cache.
    Render(Vec<String>, Vec<String>),
    /// No image of the row can be rendered: the row has no bytes.
    Empty,
}

fn count_renderable(items: &Vec<RowItem>) -> (n: usize)
    ensures
        n == renderable_count(items@),
{
    let mut n: usize = 0;
    let mut i: usize = 0;
    assert(items@.take(0) == Seq::<RowItem>::empty());
    while i < items.len()
        invariant
            i <= items.len(),
            n == renderable_count(items@.take(i as int)),
            n <= i,
        decreases items.len() - i,
    {
        assert(items@.take(i + 1).drop_last() == items@.take(i as int));
        assert(items@.take(i + 1).last() == items@[i as int]);
        if !items[i].entry.path.as_str().is_empty() && items[i].exists {
            n = n + 1;
        }
        i = i + 1;
    }
    assert(items@.take(items@.len() as int) == items@);
    n
}

/// Decides how the bytes of a row are had. `cache` is when the artifact
/// under the fingerprint of the row was last modified, or none where there
/// is no such artifact.
pub fn render_row(items: &Vec<RowItem>, config: &ImageConfig, cache: Option<Timestamp>) -> (plan:
    RowPlan)
    ensures
        plan is Reuse <==> cache_is_current(cache, items@),
        plan is Empty <==> !cache_is_current(cache, items@) && renderable_count(items@) == 0,
        plan matches RowPlan::Render(montage, convert) ==> {
            &&& texts(montage@) == montage_arguments(items@, *config)
            &&& texts(convert@) == convert_arguments(*config)
        },
{
    if is_cache_valid(cache, items) {
        return RowPlan::Reuse;
    }
    let count: usize = count_renderable(items);
    if count == 0 {
        return RowPlan::Empty;
    }
    let mut args: Vec<String> = config.get_montage_options(count);
    let ghost options = texts(args@);
    let mut i: usize = 0;
    assert(items@.take(0) == Seq::<RowItem>::empty());
    assert(options + Seq::<Seq<char>>::empty() == options);
    while i < items.len()
        invariant
            i <= items.len(),
            texts(args@) == options + label_arguments(items@.take(i as int)),
        decreases items.len() - i,
    {
        assert(items@.take(i + 1).drop_last() == items@.take(i as int));
        assert(items@.take(i + 1).last() == items@[i as int]);
        if !items[i].entry.path.as_str().is_empty() && items[i].exists {
            let ghost before = texts(args@);
            push_str(&mut args, "-label");
            push_text(&mut args, items[i].entry.label.clone());
            push_text(&mut args, items[i].entry.path.clone());
            assert(texts(args@) == before + seq![
                "-label"@,
                items@[i as int].entry.label@,
                items@[i as int].entry.path@,
            ]);
        }
        i = i + 1;
    }
    assert(items@.take(items@.len() as int) == items@);
    let ghost labelled = texts(args@);
    push_str(&mut args, "gif:-");
    assert(texts(args@) == labelled + seq!["gif:-"@]);
    RowPlan::Render(args, config.get_convert_arguments())
}

/// The extensions, in lower case, of the files that count as images.
pub open spec fn image_extensions() -> Seq<Seq<char>> {
    seq![
        "jpg"@,
        "jpeg"@,
        "png"@,
        "gif"@,
        "webp"@,
        "tiff"@,
        "tif"@,
        "pnm"@,
        "ppm"@,
        "pgm"@,
        "pbm"@,
        "pam"@,
        "xbm"@,
        "xpm"@,
        "bmp"@,
        "ico"@,
        "svg"@,
        "eps"@,
    ]
}

/// Whether a path names an image: its extension, in whatever case, is one
/// of the image extensions.
pub open spec fn names_image(path: Seq<char>) -> bool {
    match path_extension(path) {
        Some(ext) => image_extensions().contains(lowercase_of(ext)),
        None => false,
    }
}

/// The image extensions, in lower case.
pub fn image_extension_list() -> (list: Vec<String>)
    ensures
        texts(list@) == image_extensions(),
{
    let mut list: Vec<String> = Vec::new();
    assert(texts(list@) == Seq::<Seq<char>>::empty());
    push_str(&mut list, "jpg");
    push_str(&mut list, "jpeg");
    push_str(&mut list, "png");
    push_str(&mut list, "gif");
    push_str(&mut list, "webp");
    push_str(&mut list, "tiff");
    push_str(&mut list, "tif");
    push_str(&mut list, "pnm");
    push_str(&mut list, "ppm");
    push_str(&mut list, "pgm");
    push_str(&mut list, "pbm");
    push_str(&mut list, "pam");
    push_str(&mut list, "xbm");
    push_str(&mut list, "xpm");
    push_str(&mut list, "bmp");
    push_str(&mut list, "ico");
    push_str(&mut list, "svg");
    push_str(&mut list, "eps");
    assert(texts(list@) == image_extensions());
    list
}

/// Tests whether a text is one of a list.
pub fn is_listed(list: &Vec<String>, t: &String) -> (b: bool)
    ensures
        b == texts(list@).contains(t@),
{
    let mut i: usize = 0;
    while i < list.len()
        invariant
            i <= list.len(),
            forall|k: int| 0 <= k < i ==> texts(list@)[k] != t@,
        decreases list.len() - i,
    {
        if list[i] == *t {
            assert(texts(list@)[i as int] == t@);
            return true;
        }
        i = i + 1;
    }
    false
}

/// Tests whether an extension in lower case is an image extension.
pub fn is_image_extension(lower: &String) -> (b: bool)
    ensures
        b == image_extensions().contains(lower@),
{
    let list = image_extension_list();
    is_listed(&list, lower)
}

/// Tests whether a path names an image.
pub fn has_image_extension(path: &str) -> (b: bool)
    ensures
        b == names_image(path@),
{
    match extension(path) {
        Some(ext) => {
            let lower = ext.as_str().to_lowercase();
            is_image_extension(&lower)
        },
        None => false,
    }
}

/// Whether `a` comes before `b` in the order of their bytes: at the first
/// byte in which they differ `a` has the smaller one, or `a` ends there
/// and `b` goes on.
pub open spec fn bytes_lt(a: Seq<u8>, b: Seq<u8>) -> bool
    decreases a.len(),
{
    if b.len() == 0 {
        false
    } else if a.len() == 0 {
        true
    } else if a[0] != b[0] {
        a[0] < b[0]
    } else {
        bytes_lt(a.skip(1), b.skip(1))
    }
}

/// Whether the text `a` sorts before the text `b`: by the bytes of their
/// UTF-8 encodings.
pub open spec fn text_lt(a: Seq<char>, b: Seq<char>) -> bool {
    bytes_lt(vstd::utf8::encode_utf8(a), vstd::utf8::encode_utf8(b))
}

/// Whether every text sorts before all that follow it.
pub open spec fn is_ascending(v: Seq<Seq<char>>) -> bool {
    forall|i: int, j: int| 0 <= i < j < v.len() ==> text_lt(#[trigger] v[i], #[trigger] v[j])
}

proof fn lemma_bytes_trichotomy(a: Seq<u8>, b: Seq<u8>)
    ensures
        a == b || bytes_lt(a, b) || bytes_lt(b, a),
        !(bytes_lt(a, b) && bytes_lt(b, a)),
        !bytes_lt(a, a),
    decreases a.len(),
{
    if a.len() > 0 && b.len() > 0 && a[0] == b[0] {
        lemma_bytes_trichotomy(a.skip(1), b.skip(1));
        if a.skip(1) == b.skip(1) {
            assert(a == seq![a[0]] + a.skip(1));
            assert(b == seq![b[0]] + b.skip(1));
        }
    } else if a.len() == 0 && b.len() == 0 {
        assert(a == b);
    }
    if a.len() > 0 {
        lemma_bytes_trichotomy(a.skip(1), a.skip(1));
    }
}

proof fn lemma_bytes_transitive(a: Seq<u8>, b: Seq<u8>, c: Seq<u8>)
    requires
        bytes_lt(a, b),
        bytes_lt(b, c),
    ensures
        bytes_lt(a, c),
    decreases a.len(),
{
    if a.len() > 0 && a[0] == b[0] && b[0] == c[0] {
        lemma_bytes_transitive(a.skip(1), b.skip(1), c.skip(1));
    }
}

/// A text that sorts before another sorts before every text that does
/// not sort before the other.
pub proof fn text_order_carries_on(a: Seq<char>, b: Seq<char>, c: Seq<char>)
    requires
        text_lt(a, b),
        !text_lt(c, b),
    ensures
        text_lt(a, c),
{
    text_order_is_total(b, c);
    if b != c {
        lemma_bytes_transitive(
            vstd::utf8::encode_utf8(a),
            vstd::utf8::encode_utf8(b),
            vstd::utf8::encode_utf8(c),
        );
    }
}

/// Of two different texts one sorts before the other, and never both
/// ways; no text sorts before itself.
pub proof fn text_order_is_total(a: Seq<char>, b: Seq<char>)
    ensures
        a == b || text_lt(a, b) || text_lt(b, a),
        !(text_lt(a, b) && text_lt(b, a)),
        !text_lt(a, a),
{
    lemma_bytes_trichotomy(vstd::utf8::encode_utf8(a), vstd::utf8::encode_utf8(b));
    lemma_bytes_trichotomy(vstd::utf8::encode_utf8(a), vstd::utf8::encode_utf8(a));
    vstd::utf8::encode_utf8_decode_utf8(a);
    vstd::utf8::encode_utf8_decode_utf8(b);
}

/// Tests whether the text `a` sorts before the text `b`.
pub fn text_less(a: &str, b: &str) -> (r: bool)
    ensures
        r == text_lt(a@, b@),
{
    let x = a.as_bytes();
    let y = b.as_bytes();
    let mut i: usize = 0;
    assert(x@.skip(0) == x@);
    assert(y@.skip(0) == y@);
    loop
        invariant
            i <= x@.len(),
            i <= y@.len(),
            x@ == vstd::utf8::encode_utf8(a@),
            y@ == vstd::utf8::encode_utf8(b@),
            bytes_lt(x@, y@) == bytes_lt(x@.skip(i as int), y@.skip(i as int)),
        decreases x@.len() - i,
    {
        if i >= y.len() {
            return false;
        }
        if i >= x.len() {
            return true;
        }
        if x[i] != y[i] {
            return x[i] < y[i];
        }
        assert(x@.skip(i as int).skip(1) == x@.skip(i + 1));
        assert(y@.skip(i as int).skip(1) == y@.skip(i + 1));
        i = i + 1;
    }
}

/// Whether no text sorts before one that precedes it.
pub open spec fn is_sorted(v: Seq<Seq<char>>) -> bool {
    forall|i: int, j: int| 0 <= i < j < v.len() ==> !text_lt(#[trigger] v[j], #[trigger] v[i])
}

proof fn lemma_not_before_all(v: Seq<Seq<char>>, a: int, last: int, t: Seq<char>)
    requires
        is_sorted(v),
        0 <= a <= last < v.len(),
        !text_lt(t, v[last]),
    ensures
        !text_lt(t, v[a]),
{
    if a < last && text_lt(t, v[a]) {
        assert(!text_lt(v[last], v[a]));
        text_order_carries_on(t, v[a], v[last]);
    }
}

/// Sorts texts by their bytes.
pub fn sort_texts(v: Vec<String>) -> (sorted: Vec<String>)
    ensures
        is_sorted(texts(sorted@)),
        texts(sorted@).to_multiset() == texts(v@).to_multiset(),
{
    let mut rest = v;
    let mut sorted: Vec<String> = Vec::new();
    let ghost all = texts(v@);
    let n: usize = rest.len();
    let mut i: usize = 0;
    assert(all.take(0) == Seq::<Seq<char>>::empty());
    assert(texts(sorted@) == Seq::<Seq<char>>::empty());
    while i < n
        invariant
            i <= n,
            n == all.len(),
            rest@.len() == n - i,
            texts(rest@) == all.skip(i as int),
            is_sorted(texts(sorted@)),
            texts(sorted@).to_multiset() == all.take(i as int).to_multiset(),
        decreases n - i,
    {
        let ghost rest_before = rest@;
        let text = rest.remove(0);
        assert(text == rest_before[0]);
        assert(text@ == texts(rest_before)[0]);
        assert(text@ == all[i as int]);
        assert(texts(rest@) == all.skip(i + 1)) by {
            assert(texts(rest@) == texts(rest_before).skip(1));
            assert(all.skip(i as int).skip(1) == all.skip(i + 1));
        }
        let mut at: usize = sorted.len();
        while at > 0 && text_less(text.as_str(), sorted[at - 1].as_str())
            invariant
                at <= sorted.len(),
                forall|k: int|
                    at <= k < sorted@.len() ==> text_lt(text@, #[trigger] texts(sorted@)[k]),
            decreases at,
        {
            assert(texts(sorted@)[at - 1] == sorted@[at - 1]@);
            at = at - 1;
        }
        let ghost before = texts(sorted@);
        let ghost t = text@;
        proof {
            if at > 0 {
                assert(before[at - 1] == sorted@[at - 1]@);
            }
        }
        sorted.insert(at, text);
        assert(texts(sorted@) == before.insert(at as int, t));
        proof {
            vstd::seq_lib::to_multiset_insert(before, at as int, t);
            vstd::seq_lib::to_multiset_build(all.take(i as int), t);
            assert(all.take(i + 1) == all.take(i as int).push(t));
            let now = texts(sorted@);
            assert forall|a: int, b: int| 0 <= a < b < now.len() implies !text_lt(
                #[trigger] now[b],
                #[trigger] now[a],
            ) by {
                if b == at {
                    assert(now[a] == before[a]);
                    lemma_not_before_all(before, a, at as int - 1, t);
                } else if a == at {
                    assert(now[b] == before[b - 1]);
                    text_order_is_total(t, before[b - 1]);
                } else {
                    let x = if a < at {
                        a
                    } else {
                        a - 1
                    };
                    let y = if b < at {
                        b
                    } else {
                        b - 1
                    };
                    assert(now[a] == before[x]);
                    assert(now[b] == before[y]);
                }
            }
        }
        i = i + 1;
    }
    assert(all.take(all.len() as int) == all);
    sorted
}

/// Picks the images among the paths found: those with an image extension,
/// sorted, each once.
pub fn select_images(found: &Vec<String>) -> (images: Vec<String>)
    ensures
        is_ascending(texts(images@)),
        forall|t: Seq<char>| #[trigger]
            texts(images@).contains(t) ==> texts(found@).contains(t) && names_image(t),
        forall|t: Seq<char>| #[trigger]
            texts(found@).contains(t) && names_image(t) ==> texts(images@).contains(t),
{
    let mut kept: Vec<String> = Vec::new();
    let mut i: usize = 0;
    while i < found.len()
        invariant
            i <= found.len(),
            forall|k: int| 0 <= k < kept@.len() ==> names_image(#[trigger] texts(kept@)[k]),
            forall|k: int|
                0 <= k < kept@.len() ==> texts(found@).contains(#[trigger] texts(kept@)[k]),
            forall|k: int|
                0 <= k < i && names_image(texts(found@)[k]) ==> texts(kept@).contains(
                    #[trigger] texts(found@)[k],
                ),
        decreases found.len() - i,
    {
        if has_image_extension(found[i].as_str()) {
            let ghost before = kept@;
            kept.push(found[i].clone());
            assert(texts(kept@) == texts(before).push(found@[i as int]@));
            assert(texts(kept@)[kept@.len() - 1] == texts(found@)[i as int]);
            assert forall|k: int|
                0 <= k < i + 1 && names_image(texts(found@)[k]) implies texts(kept@).contains(
                #[trigger] texts(found@)[k],
            ) by {
                if k < i {
                    let at = choose|at: int|
                        0 <= at < texts(before).len() && texts(before)[at] == texts(found@)[k];
                    assert(texts(kept@)[at] == texts(found@)[k]);
                }
            }
        }
        i = i + 1;
    }
    let ghost unsorted = texts(kept@);
    let kept = sort_texts(kept);
    let ghost sorted = texts(kept@);
    let mut images: Vec<String> = Vec::new();
    let mut j: usize = 0;
    while j < kept.len()
        invariant
            j <= kept.len(),
            sorted == texts(kept@),
            forall|a: int, b: int|
                0 <= a < b < sorted.len() ==> !text_lt(#[trigger] sorted[b], #[trigger] sorted[a]),
            is_ascending(texts(images@)),
            j == 0 <==> images@.len() == 0,
            j > 0 ==> texts(images@).last() == sorted[j - 1],
            forall|k: int| 0 <= k < images@.len() ==> sorted.contains(#[trigger] texts(images@)[k]),
            forall|k: int| 0 <= k < j ==> texts(images@).contains(#[trigger] sorted[k]),
        decreases kept.len() - j,
    {
        let fresh: bool = j == 0 || kept[j] != kept[j - 1];
        if fresh {
            let ghost before = texts(images@);
            let ghost x = sorted[j as int];
            images.push(kept[j].clone());
            assert(texts(images@) == before.push(x));
            assert(is_ascending(texts(images@))) by {
                assert forall|a: int, b: int| 0 <= a < b < before.len() + 1 implies text_lt(
                    #[trigger] texts(images@)[a],
                    #[trigger] texts(images@)[b],
                ) by {
                    if b < before.len() {
                        assert(text_lt(before[a], before[b]));
                    } else {
                        let last = before.last();
                        assert(last == sorted[j - 1]);
                        text_order_is_total(last, x);
                        assert(!text_lt(sorted[j as int], sorted[j - 1]));
                        assert(text_lt(last, x));
                        if a < before.len() - 1 {
                            assert(text_lt(before[a], before[before.len() - 1]));
                            lemma_bytes_transitive(
                                vstd::utf8::encode_utf8(before[a]),
                                vstd::utf8::encode_utf8(last),
                                vstd::utf8::encode_utf8(x),
                            );
                        }
                    }
                }
            }
            assert forall|k: int| 0 <= k < j + 1 implies texts(images@).contains(
                #[trigger] sorted[k],
            ) by {
                if k < j {
                    let at = choose|at: int| 0 <= at < before.len() && before[at] == sorted[k];
                    assert(texts(images@)[at] == sorted[k]);
                } else {
                    assert(texts(images@)[before.len() as int] == x);
                }
            }
            assert forall|k: int| 0 <= k < images@.len() implies sorted.contains(
                #[trigger] texts(images@)[k],
            ) by {
                if k < before.len() {
                    assert(texts(images@)[k] == before[k]);
                } else {
                    assert(sorted[j as int] == x);
                }
            }
        } else {
            assert(sorted[j as int] == sorted[j - 1]);
        }
        j = j + 1;
    }
    assert forall|t: Seq<char>| #[trigger] texts(images@).contains(t) implies texts(
        found@,
    ).contains(t) && names_image(t) by {
        unsorted.to_multiset_ensures();
        sorted.to_multiset_ensures();
        assert(sorted.to_multiset().count(t) == unsorted.to_multiset().count(t));
        let k = choose|k: int| 0 <= k < images@.len() && texts(images@)[k] == t;
        assert(sorted.contains(texts(images@)[k]));
        assert(unsorted.contains(t));
        let u = choose|u: int| 0 <= u < unsorted.len() && unsorted[u] == t;
        assert(names_image(unsorted[u]));
        assert(texts(found@).contains(unsorted[u]));
    }
    assert forall|t: Seq<char>| #[trigger]
        texts(found@).contains(t) && names_image(t) implies texts(images@).contains(t) by {
        unsorted.to_multiset_ensures();
        sorted.to_multiset_ensures();
        assert(sorted.to_multiset().count(t) == unsorted.to_multiset().count(t));
        let k = choose|k: int| 0 <= k < found@.len() && texts(found@)[k] == t;
        assert(unsorted.contains(texts(found@)[k]));
        assert(sorted.contains(t));
        let u = choose|u: int| 0 <= u < sorted.len() && sorted[u] == t;
        assert(texts(images@).contains(sorted[u]));
    }
    images
}

/// The entries whose path is one of `paths`, in the order of the entries.
pub open spec fn entries_among(all: Seq<ImageEntry>, paths: Seq<String>) -> Seq<ImageEntry>
    decreases all.len(),
{
    if all.len() == 0 {
        Seq::<ImageEntry>::empty()
    } else if texts(paths).contains(all.last().path@) {
        entries_among(all.drop_last(), paths).push(all.last())
    } else {
        entries_among(all.drop_last(), paths)
    }
}

/// Picks the entries of a group: those whose path the group lists, in the
/// order in which the entries are shown.
pub fn images_in_group(all: &Vec<ImageEntry>, paths: &Vec<String>) -> (members: Vec<ImageEntry>)
    ensures
        members@ == entries_among(all@, paths@),
{
    let mut members: Vec<ImageEntry> = Vec::new();
    let mut i: usize = 0;
    assert(all@.take(0) == Seq::<ImageEntry>::empty());
    while i < all.len()
        invariant
            i <= all.len(),
            members@ == entries_among(all@.take(i as int), paths@),
        decreases all.len() - i,
    {
        assert(all@.take(i + 1).drop_last() == all@.take(i as int));
        assert(all@.take(i + 1).last() == all@[i as int]);
        if is_listed(paths, &all[i].path) {
            members.push(all[i].clone());
        }
        i = i + 1;
    }
    assert(all@.take(all@.len() as int) == all@);
    members
}

/// What the filters say of an image.
#[derive(Clone, Copy, Debug, PartialEq, Eq, Structural)]
pub enum FilterVerdict {
    /// No filter is set: the image was not looked at.
    NotAsked,
    /// The image meets every filter.
    Matches,
    /// The image fails a filter.
    Rejected,
    /// The image could not be analysed.
    Unknown,
}

/// Makes the entry of an image that is shown: none for a file that is not
/// there or that a filter rejects. An image that could not be analysed is
/// shown.
pub fn validate_image(
    path: &str,
    exists: bool,
    verdict: FilterVerdict,
    explicit: bool,
    mode: FilenameMode,
) -> (entry: Option<ImageEntry>)
    ensures
        entry is Some <==> exists && verdict != FilterVerdict::Rejected,
        entry matches Some(e) ==> {
            &&& e.path@ == frame_path(path@, lowercase_of(path@), explicit)
            &&& e.label@ == label_of(shown_name(path@, mode), mode)
        },
{
    if !exists {
        return None;
    }
    match verdict {
        FilterVerdict::Rejected => None,
        _ => Some(
            ImageEntry {
                path: process_image_path(path, explicit),
                label: process_label_with_mode(path, mode),
            },
        ),
    }
}

/// Which generation of the montage programs is installed.
#[derive(Clone, Copy, Debug, PartialEq, Eq, Structural)]
pub enum ImageMagickMode {
    /// One program, `magick`, with the tools as subcommands.
    V7,
    /// A program for each tool: `montage`, `convert`.
    V6,
}

/// Picks the generation from which programs answer: the new one where
/// `magick` answers, the old one where only `montage` does, and the new
/// one where neither does.
pub fn detect_imagemagick(magick_answers: bool, montage_answers: bool) -> (mode: ImageMagickMode)
    ensures
        mode == if magick_answers || !montage_answers {
            ImageMagickMode::V7
        } else {
            ImageMagickMode::V6
        },
{
    if magick_answers {
        ImageMagickMode::V7
    } else if montage_answers {
        ImageMagickMode::V6
    } else {
        ImageMagickMode::V7
    }
}

/// The program that makes the montage, with the arguments that come
/// before all others.
pub fn get_montage_command(mode: ImageMagickMode) -> (command: Vec<String>)
    ensures
        texts(command@) == match mode {
            ImageMagickMode::V7 => seq!["magick"@, "montage"@],
            ImageMagickMode::V6 => seq!["montage"@],
        },
{
    let mut command: Vec<String> = Vec::new();
    assert(texts(command@) == Seq::<Seq<char>>::empty());
    match mode {
        ImageMagickMode::V7 => {
            push_str(&mut command, "magick");
            push_str(&mut command, "montage");
            assert(texts(command@) == seq!["magick"@, "montage"@]);
        },
        ImageMagickMode::V6 => {
            push_str(&mut command, "montage");
            assert(texts(command@) == seq!["montage"@]);
        },
    }
    command
}

/// The program that encodes the montage, with the arguments that come
/// before all others: it reads the montage from its standard input.
pub fn get_convert_command(mode: ImageMagickMode) -> (command: Vec<String>)
    ensures
        texts(command@) == match mode {
            ImageMagickMode::V7 => seq!["magick"@, "-"@],
            ImageMagickMode::V6 => seq!["convert"@, "-"@],
        },
{
    let mut command: Vec<String> = Vec::new();
    assert(texts(command@) == Seq::<Seq<char>>::empty());
    match mode {
        ImageMagickMode::V7 => {
            push_str(&mut command, "magick");
            push_str(&mut command, "-");
            assert(texts(command@) == seq!["magick"@, "-"@]);
        },
        ImageMagickMode::V6 => {
            push_str(&mut command, "convert");
            push_str(&mut command, "-");
            assert(texts(command@) == seq!["convert"@, "-"@]);
        },
    }
    command
}

/// The headline of a group: its number, its name and the number of its
/// images.
pub open spec fn group_headline_text(number: nat, name: Seq<char>, count: nat) -> Seq<char> {
    "Group "@ + decimal_digits(number) + ": "@ + name + " ("@ + decimal_digits(count)
        + " images)"@
}

/// Writes the headline of a group.
pub fn group_headline(number: usize, name: &str, count: usize) -> (text: String)
    ensures
        text@ == group_headline_text(number as nat, name@, count as nat),
{
    let mut out = chars_of("Group ");
    push_decimal(&mut out, number as u64);
    crate::text::append(&mut out, &chars_of(": "));
    crate::text::append(&mut out, &chars_of(name));
    crate::text::append(&mut out, &chars_of(" ("));
    push_decimal(&mut out, count as u64);
    crate::text::append(&mut out, &chars_of(" images)"));
    assert(out@ == group_headline_text(number as nat, name@, count as nat));
    string_of(&out)
}

/// What the images of a group have in common, on one line: each name with
/// its value, separated by commas.
pub open spec fn features_text(features: Seq<(String, String)>) -> Seq<char>
    decreases features.len(),
{
    if features.len() == 0 {
        Seq::<char>::empty()
    } else if features.len() == 1 {
        features[0].0@ + ": "@ + features[0].1@
    } else {
        features_text(features.drop_last()) + ", "@ + features.last().0@ + ": "@
            + features.last().1@
    }
}

/// Writes what the images of a group have in common.
pub fn features_line(features: &Vec<(String, String)>) -> (text: String)
    ensures
        text@ == features_text(features@),
{
    let mut out: Vec<char> = Vec::new();
    let mut i: usize = 0;
    assert(features@.take(0) == Seq::<(String, String)>::empty());
    while i < features.len()
        invariant
            i <= features.len(),
            out@ == features_text(features@.take(i as int)),
        decreases features.len() - i,
    {
        let ghost prefix = features@.take(i + 1);
        assert(prefix.drop_last() == features@.take(i as int));
        assert(prefix.last() == features@[i as int]);
        assert(prefix[0] == features@[0]);
        if i > 0 {
            crate::text::append(&mut out, &chars_of(", "));
        } else {
            assert(out@ == Seq::<char>::empty());
        }
        crate::text::append(&mut out, &chars_of(features[i].0.as_str()));
        crate::text::append(&mut out, &chars_of(": "));
        crate::text::append(&mut out, &chars_of(features[i].1.as_str()));
        proof {
            if i == 0 {
                assert(out@ == features@[0].0@ + ": "@ + features@[0].1@);
            }
        }
        i = i + 1;
    }
    assert(features@.take(features@.len() as int) == features@);
    string_of(&out)
}

/// The directory of the row cache: `.cache/lsix` under the home directory,
/// or `/tmp/lsix` where no home directory is known.
pub open spec fn cache_dir_of(home: Option<Seq<char>>) -> Seq<char> {
    match home {
        Some(h) => path_joined(path_joined(h, ".cache"@), "lsix"@),
        None => "/tmp/lsix"@,
    }
}

/// Names the directory of the row cache.
pub fn get_cache_dir(home: Option<&str>) -> (dir: String)
    ensures
        dir@ == cache_dir_of(
            match home {
                Some(h) => Some(h@),
                None => None,
            },
        ),
{
    match home {
        Some(h) => {
            let base = join(h, ".cache");
            join(base.as_str(), "lsix")
        },
        None => "/tmp/lsix".to_owned(),
    }
}

/// Where the bytes of a row are cached: under its key in the directory.
pub fn cache_path(dir: &str, key: &str) -> (path: String)
    ensures
        path@ == path_joined(dir@, key@),
{
    join(dir, key)
}

} // verus!

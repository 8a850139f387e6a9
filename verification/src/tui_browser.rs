//! The interactive grid browser: a paginated grid of thumbnails with one
//! selected cell, and a fullscreen view of the selected image.
//!
//! The browser is a state machine. The caller polls the keyboard, hands each
//! key press to [`TuiBrowser::handle_key`] and carries out the action that
//! comes back; it draws with the geometry computed here.

use vstd::prelude::*;
use crate::paths::{file_name, path_file_name};
use crate::term_image::{add_clamped, clamped_sum, Area};
use crate::text::{append, chars_of, decimal_digits, push_decimal, string_of};

verus! {

/// Most columns the grid ever shows.
pub const MAX_GRID_COLS: u16 = 5;

/// Most rows the grid ever shows.
pub const MAX_GRID_ROWS: u16 = 3;

/// Narrowest cell, in character columns, that the grid aims for.
pub const MIN_CELL_WIDTH: u16 = 12;

/// Shortest cell, in character rows, that the grid aims for.
pub const MIN_CELL_HEIGHT: u16 = 8;

/// An image whose longer side reaches this many pixels is downsampled
/// before it is shown fullscreen.
pub const FULLSCREEN_MAX_DIMENSION: u32 = 1920;

/// The key of a key press, as far as the browser tells keys apart.
#[derive(Clone, Copy, Debug, PartialEq, Eq, Structural)]
pub enum KeyCode {
    Char(char),
    Esc,
    Enter,
    Up,
    Down,
    Left,
    Right,
    PageUp,
    PageDown,
    Home,
    End,
    Other,
}

/// One key press with the modifiers held.
#[derive(Clone, Copy, Debug, PartialEq, Eq, Structural)]
pub struct KeyPress {
    pub code: KeyCode,
    pub control: bool,
    pub shift: bool,
}

/// A move of the selection.
#[derive(Clone, Copy, Debug, PartialEq, Eq, Structural)]
pub enum Motion {
    Up,
    Down,
    Left,
    Right,
    PageUp,
    PageDown,
    First,
    Last,
}

/// What a key press asks of the browser.
#[derive(Clone, Copy, Debug, PartialEq, Eq, Structural)]
pub enum Command {
    /// `q` or Escape: leave the fullscreen view, or the browser.
    Back,
    /// Enter: show the selected image fullscreen.
    Open,
    /// Move the selection.
    Go(Motion),
    /// A key without a binding.
    Ignore,
}

/// What the caller does after a key press was handled.
#[derive(Clone, Copy, Debug, PartialEq, Eq, Structural)]
pub enum BrowserAction {
    /// Leave the browser.
    Exit,
    /// The state changed: draw again.
    Redraw,
    /// Nothing changed: keep waiting for input.
    Wait,
}

/// The binding of each key.
pub open spec fn command_of(key: KeyPress) -> Command {
    match key.code {
        KeyCode::Char(c) => if c == 'q' {
            Command::Back
        } else if c == 'g' && key.control {
            Command::Go(Motion::First)
        } else if c == 'G' && key.shift {
            Command::Go(Motion::Last)
        } else {
            Command::Ignore
        },
        KeyCode::Esc => Command::Back,
        KeyCode::Enter => Command::Open,
        KeyCode::Up => Command::Go(Motion::Up),
        KeyCode::Down => Command::Go(Motion::Down),
        KeyCode::Left => Command::Go(Motion::Left),
        KeyCode::Right => Command::Go(Motion::Right),
        KeyCode::PageUp => Command::Go(Motion::PageUp),
        KeyCode::PageDown => Command::Go(Motion::PageDown),
        KeyCode::Home => Command::Go(Motion::First),
        KeyCode::End => Command::Go(Motion::Last),
        KeyCode::Other => Command::Ignore,
    }
}

/// Reads a key press as a command.
pub fn command_for(key: KeyPress) -> (c: Command)
    ensures
        c == command_of(key),
{
    match key.code {
        KeyCode::Char(c) => {
            if c == 'q' {
                Command::Back
            } else if c == 'g' && key.control {
                Command::Go(Motion::First)
            } else if c == 'G' && key.shift {
                Command::Go(Motion::Last)
            } else {
                Command::Ignore
            }
        },
        KeyCode::Esc => Command::Back,
        KeyCode::Enter => Command::Open,
        KeyCode::Up => Command::Go(Motion::Up),
        KeyCode::Down => Command::Go(Motion::Down),
        KeyCode::Left => Command::Go(Motion::Left),
        KeyCode::Right => Command::Go(Motion::Right),
        KeyCode::PageUp => Command::Go(Motion::PageUp),
        KeyCode::PageDown => Command::Go(Motion::PageDown),
        KeyCode::Home => Command::Go(Motion::First),
        KeyCode::End => Command::Go(Motion::Last),
        KeyCode::Other => Command::Ignore,
    }
}

/// The lowest item of the column that holds `col` in its top row.
pub open spec fn last_in_column(col: int, len: int, cols: int) -> int {
    col + ((len - 1 - col) / cols) * cols
}

/// Where a motion takes the selection, among `len` items laid out in rows
/// of `cols`, with `per_page` items on a page.
///
/// Left and Right walk the sequence and stop at its ends. Up and Down keep
/// the column and wrap between its top and its lowest item. The page keys
/// move by one page and stop at the first and the last item.
pub open spec fn target_index(m: Motion, selected: int, len: int, cols: int, per_page: int) -> int {
    match m {
        Motion::Down => if selected + cols < len {
            selected + cols
        } else {
            selected % cols
        },
        Motion::Up => if selected >= cols {
            selected - cols
        } else {
            last_in_column(selected, len, cols)
        },
        Motion::Left => if selected > 0 {
            selected - 1
        } else {
            selected
        },
        Motion::Right => if selected + 1 < len {
            selected + 1
        } else {
            selected
        },
        Motion::PageUp => if selected >= per_page {
            selected - per_page
        } else {
            0
        },
        Motion::PageDown => if selected + per_page < len {
            selected + per_page
        } else {
            len - 1
        },
        Motion::First => 0,
        Motion::Last => len - 1,
    }
}

/// The first index of the page that holds `index`.
pub open spec fn page_start(index: int, per_page: int) -> int {
    (index / per_page) * per_page
}

proof fn lemma_last_in_column(col: int, len: int, cols: int)
    requires
        0 <= col < len,
        col < cols,
    ensures
        col <= last_in_column(col, len, cols) < len,
        last_in_column(col, len, cols) % cols == col,
        last_in_column(col, len, cols) + cols >= len,
{
    let q = (len - 1 - col) / cols;
    assert(q * cols <= len - 1 - col && len - 1 - col < q * cols + cols && q >= 0) by (nonlinear_arith)
        requires
            q == (len - 1 - col) / cols,
            len - 1 - col >= 0,
            cols > 0,
    ;
    vstd::arithmetic::div_mod::lemma_mod_multiples_vanish(q, col, cols);
    vstd::arithmetic::div_mod::lemma_small_mod(col as nat, cols as nat);
    assert(q * cols + col == cols * q + col) by (nonlinear_arith);
}

proof fn lemma_page_start(index: int, per_page: int)
    requires
        0 <= index,
        0 < per_page,
    ensures
        0 <= page_start(index, per_page) <= index < page_start(index, per_page) + per_page,
        page_start(index, per_page) % per_page == 0,
{
    let q = index / per_page;
    assert(q * per_page <= index && index < q * per_page + per_page && q >= 0) by (nonlinear_arith)
        requires
            q == index / per_page,
            index >= 0,
            per_page > 0,
    ;
    vstd::arithmetic::div_mod::lemma_mod_multiples_basic(q, per_page);
}

/// Computes where a motion takes the selection.
pub fn target(m: Motion, selected: usize, len: usize, cols: usize, per_page: usize) -> (r: usize)
    requires
        selected < len,
        cols >= 1,
        per_page >= 1,
    ensures
        r as int == target_index(m, selected as int, len as int, cols as int, per_page as int),
        r < len,
{
    match m {
        Motion::Down => {
            if cols < len - selected {
                selected + cols
            } else {
                proof {
                    vstd::arithmetic::div_mod::lemma_mod_decreases(selected as nat, cols as nat);
                }
                selected % cols
            }
        },
        Motion::Up => {
            if selected >= cols {
                selected - cols
            } else {
                proof {
                    lemma_last_in_column(selected as int, len as int, cols as int);
                }
                let q: usize = (len - 1 - selected) / cols;
                assert(q * cols <= len - 1 - selected) by (nonlinear_arith)
                    requires
                        q == (len - 1 - selected) / (cols as int),
                        len - 1 - selected >= 0,
                        cols > 0,
                ;
                selected + q * cols
            }
        },
        Motion::Left => {
            if selected > 0 {
                selected - 1
            } else {
                selected
            }
        },
        Motion::Right => {
            if 1 < len - selected {
                selected + 1
            } else {
                selected
            }
        },
        Motion::PageUp => {
            if selected >= per_page {
                selected - per_page
            } else {
                0
            }
        },
        Motion::PageDown => {
            if per_page < len - selected {
                selected + per_page
            } else {
                len - 1
            }
        },
        Motion::First => 0,
        Motion::Last => len - 1,
    }
}

/// Computes the first index of the page that holds `index`.
pub fn page_start_of(index: usize, per_page: usize) -> (r: usize)
    requires
        per_page >= 1,
    ensures
        r as int == page_start(index as int, per_page as int),
        r <= index,
        index - r < per_page,
        r as int % per_page as int == 0,
{
    proof {
        lemma_page_start(index as int, per_page as int);
    }
    let q: usize = index / per_page;
    q * per_page
}

/// How many columns the grid shows in an area `width` cells wide: as many
/// cells of the minimum width as fit, at least one and at most five.
pub open spec fn grid_cols_for(width: int) -> int {
    let fit = width / MIN_CELL_WIDTH as int;
    if fit < 1 {
        1
    } else if fit > MAX_GRID_COLS as int {
        MAX_GRID_COLS as int
    } else {
        fit
    }
}

/// How many rows the grid shows in an area `height` cells tall: as many
/// cells of the minimum height as fit, at least one and at most three.
pub open spec fn grid_rows_for(height: int) -> int {
    let fit = height / MIN_CELL_HEIGHT as int;
    if fit < 1 {
        1
    } else if fit > MAX_GRID_ROWS as int {
        MAX_GRID_ROWS as int
    } else {
        fit
    }
}

/// Computes the number of grid columns for an area of the given width.
pub fn grid_cols(width: u16) -> (cols: u16)
    ensures
        cols as int == grid_cols_for(width as int),
        1 <= cols <= MAX_GRID_COLS,
        width >= MIN_CELL_WIDTH ==> width / cols >= MIN_CELL_WIDTH,
{
    let fit: u16 = width / MIN_CELL_WIDTH;
    let cols: u16 = if fit < 1 {
        1
    } else if fit > MAX_GRID_COLS {
        MAX_GRID_COLS
    } else {
        fit
    };
    assert(width >= MIN_CELL_WIDTH ==> width as int / cols as int >= MIN_CELL_WIDTH as int)
        by (nonlinear_arith)
        requires
            1 <= cols <= 5,
            cols as int <= width as int / 12 || width < 12,
            MIN_CELL_WIDTH == 12,
    ;
    cols
}

/// Computes the number of grid rows for an area of the given height.
pub fn grid_rows(height: u16) -> (rows: u16)
    ensures
        rows as int == grid_rows_for(height as int),
        1 <= rows <= MAX_GRID_ROWS,
        height >= MIN_CELL_HEIGHT ==> height / rows >= MIN_CELL_HEIGHT,
{
    let fit: u16 = height / MIN_CELL_HEIGHT;
    let rows: u16 = if fit < 1 {
        1
    } else if fit > MAX_GRID_ROWS {
        MAX_GRID_ROWS
    } else {
        fit
    };
    assert(height >= MIN_CELL_HEIGHT ==> height as int / rows as int >= MIN_CELL_HEIGHT as int)
        by (nonlinear_arith)
        requires
            1 <= rows <= 3,
            rows as int <= height as int / 8 || height < 8,
            MIN_CELL_HEIGHT == 8,
    ;
    rows
}

/// The browser: the images, the selected one, the page shown and the view.
pub struct TuiBrowser {
    /// The image paths, in the order they are browsed.
    pub items: Vec<String>,
    /// Index of the selected item.
    pub selected: usize,
    /// The directory named in the header.
    pub current_dir: String,
    /// Columns of the grid.
    pub grid_cols: u16,
    /// Rows of the grid.
    pub grid_rows: u16,
    /// Index of the first item on the page shown.
    pub scroll_offset: usize,
    /// Whether the selected image is shown fullscreen.
    pub fullscreen_mode: bool,
}

/// The numbers of the status line.
#[derive(Clone, Copy, Debug, PartialEq, Eq, Structural)]
pub struct PageInfo {
    /// Position of the selected item, counted from one.
    pub position: usize,
    /// Number of items.
    pub total: usize,
    /// Number of the page shown, counted from one.
    pub page: usize,
    /// Number of pages.
    pub pages: usize,
}

impl TuiBrowser {
    /// Items on one page.
    pub open spec fn per_page(&self) -> int {
        self.grid_cols as int * self.grid_rows as int
    }

    /// The invariant of the browser: there is a selected item, the grid is
    /// between 1x1 and 5x3, and the page shown is the one that holds the
    /// selection.
    pub open spec fn wf(&self) -> bool {
        &&& self.items.len() >= 1
        &&& self.selected < self.items.len()
        &&& 1 <= self.grid_cols <= MAX_GRID_COLS
        &&& 1 <= self.grid_rows <= MAX_GRID_ROWS
        &&& self.scroll_offset as int == page_start(self.selected as int, self.per_page())
    }

    /// The browser with another item selected and its page shown.
    pub open spec fn with_selected(self, index: int) -> TuiBrowser {
        TuiBrowser {
            selected: index as usize,
            scroll_offset: page_start(index, self.per_page()) as usize,
            ..self
        }
    }

    /// The browser after a motion of the selection.
    pub open spec fn after_motion(self, m: Motion) -> TuiBrowser {
        self.with_selected(
            target_index(
                m,
                self.selected as int,
                self.items@.len() as int,
                self.grid_cols as int,
                self.per_page(),
            ),
        )
    }

    /// The browser after a key press. In the fullscreen view only `q` and
    /// Escape do anything: they lead back to the grid. In the grid they end
    /// the browser and leave the state alone, Enter opens the fullscreen
    /// view, and the navigation keys move the selection.
    pub open spec fn after_key(self, key: KeyPress) -> TuiBrowser {
        if self.fullscreen_mode {
            match command_of(key) {
                Command::Back => TuiBrowser { fullscreen_mode: false, ..self },
                _ => self,
            }
        } else {
            match command_of(key) {
                Command::Back => self,
                Command::Open => TuiBrowser { fullscreen_mode: true, ..self },
                Command::Go(m) => self.after_motion(m),
                Command::Ignore => self,
            }
        }
    }

    /// What the caller does after a key press: leave on `q` or Escape in
    /// the grid, draw again when the state changed, else keep waiting.
    pub open spec fn action_for(self, key: KeyPress) -> BrowserAction {
        if !self.fullscreen_mode && command_of(key) == Command::Back {
            BrowserAction::Exit
        } else if self.after_key(key) != self {
            BrowserAction::Redraw
        } else {
            BrowserAction::Wait
        }
    }

    /// The browser after the grid area changed size.
    pub open spec fn after_viewport(self, area: Area) -> TuiBrowser {
        let resized = TuiBrowser {
            grid_cols: grid_cols_for(area.width as int) as u16,
            grid_rows: grid_rows_for(area.height as int) as u16,
            ..self
        };
        resized.with_selected(self.selected as int)
    }

    /// A browser over `items` with the first one selected, in the grid
    /// view, with the largest grid until the first area is known.
    pub fn new(items: Vec<String>, current_dir: String) -> (b: TuiBrowser)
        requires
            items@.len() >= 1,
        ensures
            b.wf(),
            b.items == items,
            b.current_dir == current_dir,
            b.selected == 0,
            b.scroll_offset == 0,
            b.grid_cols == MAX_GRID_COLS,
            b.grid_rows == MAX_GRID_ROWS,
            !b.fullscreen_mode,
    {
        proof {
            lemma_page_start(0, MAX_GRID_COLS as int * MAX_GRID_ROWS as int);
        }
        TuiBrowser {
            items,
            selected: 0,
            current_dir,
            grid_cols: MAX_GRID_COLS,
            grid_rows: MAX_GRID_ROWS,
            scroll_offset: 0,
            fullscreen_mode: false,
        }
    }

    /// Number of items on one page.
    pub fn items_per_page(&self) -> (n: usize)
        requires
            self.wf(),
        ensures
            n as int == self.per_page(),
            1 <= n <= 15,
    {
        assert(1 <= self.grid_cols as int * self.grid_rows as int <= 15) by (nonlinear_arith)
            requires
                1 <= self.grid_cols <= 5,
                1 <= self.grid_rows <= 3,
        ;
        let cols: usize = self.grid_cols as usize;
        let rows: usize = self.grid_rows as usize;
        cols * rows
    }

    /// Selects an item and shows the page that holds it.
    pub fn select(&mut self, index: usize)
        requires
            old(self).wf(),
            index < old(self).items@.len(),
        ensures
            final(self).wf(),
            *final(self) == old(self).with_selected(index as int),
    {
        let per_page: usize = self.items_per_page();
        self.selected = index;
        self.scroll_offset = page_start_of(index, per_page);
    }

    /// Moves the selection.
    pub fn go(&mut self, m: Motion)
        requires
            old(self).wf(),
        ensures
            final(self).wf(),
            *final(self) == old(self).after_motion(m),
    {
        let per_page: usize = self.items_per_page();
        let index: usize = target(
            m,
            self.selected,
            self.items.len(),
            self.grid_cols as usize,
            per_page,
        );
        self.select(index);
    }

    /// Selects the following item; after the last one comes the first.
    pub fn next(&mut self)
        requires
            old(self).wf(),
        ensures
            final(self).wf(),
            *final(self) == old(self).with_selected(
                if old(self).selected + 1 < old(self).items@.len() {
                    old(self).selected + 1
                } else {
                    0
                },
            ),
    {
        let index: usize = if self.selected >= self.items.len() - 1 {
            0
        } else {
            self.selected + 1
        };
        self.select(index);
    }

    /// Selects the preceding item; before the first one comes the last.
    pub fn previous(&mut self)
        requires
            old(self).wf(),
        ensures
            final(self).wf(),
            *final(self) == old(self).with_selected(
                if old(self).selected == 0 {
                    old(self).items@.len() - 1
                } else {
                    old(self).selected - 1
                },
            ),
    {
        let index: usize = if self.selected == 0 {
            self.items.len() - 1
        } else {
            self.selected - 1
        };
        self.select(index);
    }

    /// Handles one key press and says what the caller does next.
    pub fn handle_key(&mut self, key: KeyPress) -> (action: BrowserAction)
        requires
            old(self).wf(),
        ensures
            final(self).wf(),
            *final(self) == old(self).after_key(key),
            action == old(self).action_for(key),
    {
        let command = command_for(key);
        if self.fullscreen_mode {
            match command {
                Command::Back => {
                    self.fullscreen_mode = false;
                    BrowserAction::Redraw
                },
                _ => BrowserAction::Wait,
            }
        } else {
            match command {
                Command::Back => BrowserAction::Exit,
                Command::Open => {
                    self.fullscreen_mode = true;
                    BrowserAction::Redraw
                },
                Command::Go(m) => {
                    let before: usize = self.selected;
                    self.go(m);
                    if self.selected != before {
                        BrowserAction::Redraw
                    } else {
                        BrowserAction::Wait
                    }
                },
                Command::Ignore => BrowserAction::Wait,
            }
        }
    }

    /// Fits the grid to the area it is drawn in, keeping the selection.
    pub fn set_viewport(&mut self, area: Area)
        requires
            old(self).wf(),
        ensures
            final(self).wf(),
            *final(self) == old(self).after_viewport(area),
    {
        let cols: u16 = grid_cols(area.width);
        let rows: u16 = grid_rows(area.height);
        assert(1 <= cols as int * rows as int <= 15) by (nonlinear_arith)
            requires
                1 <= cols <= 5,
                1 <= rows <= 3,
        ;
        self.grid_cols = cols;
        self.grid_rows = rows;
        self.scroll_offset = page_start_of(self.selected, (cols as usize) * (rows as usize));
    }

    /// The path of the selected image.
    pub fn selected_path(&self) -> (path: &String)
        requires
            self.wf(),
        ensures
            *path == self.items@[self.selected as int],
    {
        &self.items[self.selected]
    }

    /// The indices of the items on the page shown: from the first, up to
    /// but not including the second.
    pub fn visible_range(&self) -> (range: (usize, usize))
        requires
            self.wf(),
        ensures
            range.0 == self.scroll_offset,
            range.1 as int == if self.scroll_offset + self.per_page() < self.items@.len() {
                self.scroll_offset + self.per_page()
            } else {
                self.items@.len() as int
            },
            range.0 <= self.selected < range.1,
    {
        let per_page: usize = self.items_per_page();
        proof {
            lemma_page_start(self.selected as int, self.per_page());
        }
        let len: usize = self.items.len();
        let end: usize = if per_page < len - self.scroll_offset {
            self.scroll_offset + per_page
        } else {
            len
        };
        (self.scroll_offset, end)
    }

    /// The numbers that the status line shows.
    pub fn page_info(&self) -> (info: PageInfo)
        requires
            self.wf(),
        ensures
            info.position == self.selected + 1,
            info.total == self.items@.len(),
            info.page as int == self.scroll_offset as int / self.per_page() + 1,
            info.pages as int == (self.items@.len() - 1) / self.per_page() + 1,
            1 <= info.page <= info.pages,
    {
        let per_page: usize = self.items_per_page();
        proof {
            lemma_page_start(self.selected as int, self.per_page());
        }
        let len: usize = self.items.len();
        assert(self.scroll_offset as int / per_page as int <= (len - 1) / per_page as int)
            by (nonlinear_arith)
            requires
                0 <= self.scroll_offset <= len - 1,
                per_page > 0,
        ;
        PageInfo {
            position: self.selected + 1,
            total: len,
            page: self.scroll_offset / per_page + 1,
            pages: (len - 1) / per_page + 1,
        }
    }
}

/// The status line of the grid: the keys, the position of the selection
/// and the page.
pub open spec fn grid_status(info: PageInfo) -> Seq<char> {
    "q: Quit | Arrows: Nav | Enter: View | PgUp/PgDn: Page | "@ + decimal_digits(
        info.position as nat,
    ) + seq!['/'] + decimal_digits(info.total as nat) + " | Page "@ + decimal_digits(
        info.page as nat,
    ) + seq!['/'] + decimal_digits(info.pages as nat)
}

/// The title of the grid: its size and the page.
pub open spec fn grid_title_text(cols: u16, rows: u16, info: PageInfo) -> Seq<char> {
    "Image Grid ("@ + decimal_digits(cols as nat) + seq!['x'] + decimal_digits(rows as nat)
        + ") - Page "@ + decimal_digits(info.page as nat) + seq!['/'] + decimal_digits(
        info.pages as nat,
    )
}

/// The status line of the fullscreen view: the name of the image, the key
/// that leads back, and the position of the selection.
pub open spec fn fullscreen_status_text(name: Seq<char>, info: PageInfo) -> Seq<char> {
    name + " | q/ESC: Back | "@ + decimal_digits(info.position as nat) + seq!['/']
        + decimal_digits(info.total as nat)
}

/// The name under which an image is shown: the final component of its
/// path, or the path where it has none.
pub open spec fn display_name(path: Seq<char>) -> Seq<char> {
    match path_file_name(path) {
        Some(name) => name,
        None => path,
    }
}

impl TuiBrowser {
    /// Writes the header.
    pub fn header(&self) -> (text: String)
        ensures
            text@ == "TUI Image Browser - "@ + self.current_dir@,
    {
        let mut out = chars_of("TUI Image Browser - ");
        append(&mut out, &chars_of(self.current_dir.as_str()));
        string_of(&out)
    }

    /// Writes the status line of the grid.
    pub fn status_line(&self) -> (text: String)
        requires
            self.wf(),
        ensures
            text@ == grid_status(
                PageInfo {
                    position: (self.selected + 1) as usize,
                    total: self.items.len(),
                    page: (self.scroll_offset as int / self.per_page() + 1) as usize,
                    pages: ((self.items.len() - 1) / self.per_page() + 1) as usize,
                },
            ),
    {
        let info = self.page_info();
        let mut out = chars_of("q: Quit | Arrows: Nav | Enter: View | PgUp/PgDn: Page | ");
        push_decimal(&mut out, info.position as u64);
        out.push('/');
        push_decimal(&mut out, info.total as u64);
        append(&mut out, &chars_of(" | Page "));
        push_decimal(&mut out, info.page as u64);
        out.push('/');
        push_decimal(&mut out, info.pages as u64);
        assert(out@ == grid_status(info));
        string_of(&out)
    }

    /// Writes the title of the grid.
    pub fn grid_title(&self) -> (text: String)
        requires
            self.wf(),
        ensures
            text@ == grid_title_text(
                self.grid_cols,
                self.grid_rows,
                PageInfo {
                    position: (self.selected + 1) as usize,
                    total: self.items.len(),
                    page: (self.scroll_offset as int / self.per_page() + 1) as usize,
                    pages: ((self.items.len() - 1) / self.per_page() + 1) as usize,
                },
            ),
    {
        let info = self.page_info();
        let mut out = chars_of("Image Grid (");
        push_decimal(&mut out, self.grid_cols as u64);
        out.push('x');
        push_decimal(&mut out, self.grid_rows as u64);
        append(&mut out, &chars_of(") - Page "));
        push_decimal(&mut out, info.page as u64);
        out.push('/');
        push_decimal(&mut out, info.pages as u64);
        assert(out@ == grid_title_text(self.grid_cols, self.grid_rows, info));
        string_of(&out)
    }

    /// Writes the status line of the fullscreen view.
    pub fn fullscreen_status(&self) -> (text: String)
        requires
            self.wf(),
        ensures
            text@ == fullscreen_status_text(
                display_name(self.items@[self.selected as int]@),
                PageInfo {
                    position: (self.selected + 1) as usize,
                    total: self.items.len(),
                    page: (self.scroll_offset as int / self.per_page() + 1) as usize,
                    pages: ((self.items.len() - 1) / self.per_page() + 1) as usize,
                },
            ),
    {
        let info = self.page_info();
        let path = self.selected_path();
        let mut out: Vec<char> = match file_name(path.as_str()) {
            Some(name) => chars_of(name.as_str()),
            None => chars_of(path.as_str()),
        };
        append(&mut out, &chars_of(" | q/ESC: Back | "));
        push_decimal(&mut out, info.position as u64);
        out.push('/');
        push_decimal(&mut out, info.total as u64);
        assert(out@ == fullscreen_status_text(display_name(path@), info));
        string_of(&out)
    }
}

/// After a selection change the selected item is on the page shown, and the
/// page starts at a multiple of the page size.
pub proof fn selection_is_on_page(b: TuiBrowser)
    requires
        b.wf(),
    ensures
        b.scroll_offset <= b.selected,
        b.selected < b.scroll_offset + b.per_page(),
        b.scroll_offset as int % b.per_page() == 0,
{
    assert(1 <= b.grid_cols as int * b.grid_rows as int) by (nonlinear_arith)
        requires
            1 <= b.grid_cols,
            1 <= b.grid_rows,
    ;
    lemma_page_start(b.selected as int, b.per_page());
}

/// Down on the lowest item of a column leads to the top row of the same
/// column.
pub proof fn down_from_bottom_wraps_to_top(b: TuiBrowser)
    requires
        b.wf(),
        !b.fullscreen_mode,
        b.selected + b.grid_cols >= b.items@.len(),
    ensures
        b.after_motion(Motion::Down).selected < b.grid_cols,
        b.after_motion(Motion::Down).selected as int % b.grid_cols as int == b.selected as int
            % b.grid_cols as int,
        b.after_motion(Motion::Down).selected < b.items@.len(),
{
    let cols = b.grid_cols as int;
    let sel = b.selected as int;
    vstd::arithmetic::div_mod::lemma_mod_bound(sel, cols);
    vstd::arithmetic::div_mod::lemma_mod_decreases(sel as nat, cols as nat);
    vstd::arithmetic::div_mod::lemma_small_mod((sel % cols) as nat, cols as nat);
}

/// Up on the top row leads to the lowest item of the same column.
pub proof fn up_from_top_wraps_to_bottom(b: TuiBrowser)
    requires
        b.wf(),
        !b.fullscreen_mode,
        b.selected < b.grid_cols,
    ensures
        b.after_motion(Motion::Up).selected < b.items@.len(),
        b.after_motion(Motion::Up).selected as int % b.grid_cols as int == b.selected as int,
        b.after_motion(Motion::Up).selected + b.grid_cols >= b.items@.len(),
{
    lemma_last_in_column(b.selected as int, b.items@.len() as int, b.grid_cols as int);
}

/// Whatever key is pressed, the selection stays on an item.
pub proof fn selection_stays_in_range(b: TuiBrowser, key: KeyPress)
    requires
        b.wf(),
    ensures
        b.after_key(key).wf(),
        b.after_key(key).selected < b.items@.len(),
        b.after_key(key).items == b.items,
{
    let len = b.items@.len() as int;
    let cols = b.grid_cols as int;
    let sel = b.selected as int;
    assert(1 <= b.per_page() <= 15) by (nonlinear_arith)
        requires
            1 <= b.grid_cols <= 5,
            1 <= b.grid_rows <= 3,
            b.per_page() == b.grid_cols as int * b.grid_rows as int,
    ;
    if !b.fullscreen_mode {
        match command_of(key) {
            Command::Go(m) => {
                let t = target_index(m, sel, len, cols, b.per_page());
                assert(0 <= t < len) by {
                    match m {
                        Motion::Down => {
                            vstd::arithmetic::div_mod::lemma_mod_bound(sel, cols);
                            vstd::arithmetic::div_mod::lemma_mod_decreases(sel as nat, cols as nat);
                        },
                        Motion::Up => {
                            if sel < cols {
                                lemma_last_in_column(sel, len, cols);
                            }
                        },
                        _ => {},
                    }
                }
                lemma_page_start(t, b.per_page());
            },
            _ => {},
        }
    }
}

/// The cell of the grid in which the item in `slot` of the page is drawn,
/// before any inset: the area is cut into `cols` by `rows` equal cells,
/// filled row by row.
pub open spec fn raw_cell(area: Area, cols: int, rows: int, slot: int) -> Area {
    let cell_width = area.width as int / cols;
    let cell_height = area.height as int / rows;
    Area {
        x: clamped_sum(area.x as int, (slot % cols) * cell_width) as u16,
        y: clamped_sum(area.y as int, (slot / cols) * cell_height) as u16,
        width: cell_width as u16,
        height: cell_height as u16,
    }
}

/// A cell without its left column and its top row, where it is large
/// enough to spare them.
pub open spec fn inset_cell(cell: Area) -> Area {
    let by_x = cell.width > 2;
    let by_y = cell.height > 2;
    Area {
        x: if by_x {
            clamped_sum(cell.x as int, 1) as u16
        } else {
            cell.x
        },
        y: if by_y {
            clamped_sum(cell.y as int, 1) as u16
        } else {
            cell.y
        },
        width: if by_x {
            (cell.width - 1) as u16
        } else {
            cell.width
        },
        height: if by_y {
            (cell.height - 1) as u16
        } else {
            cell.height
        },
    }
}

/// The frame of a thumbnail: the area in which the border of the selected
/// cell is drawn.
pub open spec fn thumbnail_frame(area: Area, cols: int, rows: int, slot: int) -> Area {
    inset_cell(raw_cell(area, cols, rows, slot))
}

/// Whether a frame is large enough to carry the border of the selection.
pub open spec fn frame_holds_border(frame: Area) -> bool {
    frame.width > 2 && frame.height > 1
}

/// The area of the image inside a frame: one more row is left free at the
/// top where the frame can spare it, then two columns on either side and a
/// row above and below.
pub open spec fn image_area_in(frame: Area) -> Area {
    let lowered = frame.height > 2;
    let y = if lowered {
        clamped_sum(frame.y as int, 1)
    } else {
        frame.y as int
    };
    let height = if lowered {
        frame.height - 1
    } else {
        frame.height as int
    };
    Area {
        x: clamped_sum(frame.x as int, 2) as u16,
        y: clamped_sum(y, 1) as u16,
        width: if frame.width > 4 {
            (frame.width - 4) as u16
        } else {
            frame.width
        },
        height: if height > 2 {
            (height - 2) as u16
        } else {
            height as u16
        },
    }
}

/// Computes the frame of the thumbnail in `slot` of the page.
pub fn thumbnail_cell(area: Area, cols: u16, rows: u16, slot: usize) -> (frame: Area)
    requires
        1 <= cols <= MAX_GRID_COLS,
        1 <= rows <= MAX_GRID_ROWS,
        slot < cols * rows,
    ensures
        frame == thumbnail_frame(area, cols as int, rows as int, slot as int),
{
    let cell_width: u16 = area.width / cols;
    let cell_height: u16 = area.height / rows;
    let wide_col: usize = slot % (cols as usize);
    let wide_row: usize = slot / (cols as usize);
    assert(wide_row < rows) by (nonlinear_arith)
        requires
            wide_row as int == slot as int / cols as int,
            slot < cols as int * rows as int,
            cols > 0,
    ;
    let col: u16 = wide_col as u16;
    let row: u16 = wide_row as u16;
    assert(col as int * cell_width as int <= area.width as int) by (nonlinear_arith)
        requires
            cell_width as int == area.width as int / cols as int,
            0 <= col < cols,
    ;
    assert(row as int * cell_height as int <= area.height as int) by (nonlinear_arith)
        requires
            cell_height as int == area.height as int / rows as int,
            0 <= row < rows,
    ;
    let mut frame = Area {
        x: add_clamped(area.x, col * cell_width),
        y: add_clamped(area.y, row * cell_height),
        width: cell_width,
        height: cell_height,
    };
    if frame.width > 2 {
        frame.x = add_clamped(frame.x, 1);
        frame.width = frame.width - 1;
    }
    if frame.height > 2 {
        frame.y = add_clamped(frame.y, 1);
        frame.height = frame.height - 1;
    }
    frame
}

/// Whether the border of the selection is drawn on a frame.
pub fn shows_selection_border(frame: Area) -> (shown: bool)
    ensures
        shown == frame_holds_border(frame),
{
    frame.width > 2 && frame.height > 1
}

/// Computes the area of the image inside a frame.
pub fn thumbnail_image_area(frame: Area) -> (image: Area)
    ensures
        image == image_area_in(frame),
{
    let mut y: u16 = frame.y;
    let mut height: u16 = frame.height;
    if height > 2 {
        y = add_clamped(y, 1);
        height = height - 1;
    }
    Area {
        x: add_clamped(frame.x, 2),
        y: add_clamped(y, 1),
        width: if frame.width > 4 {
            frame.width - 4
        } else {
            frame.width
        },
        height: if height > 2 {
            height - 2
        } else {
            height
        },
    }
}

/// The fullscreen view: the image fills the screen but for the last line,
/// which holds the status.
pub fn fullscreen_layout(screen: Area) -> (parts: (Area, Area))
    ensures
        parts.0 == (Area {
            x: 0,
            y: 0,
            width: screen.width,
            height: if screen.height >= 1 {
                (screen.height - 1) as u16
            } else {
                0
            },
        }),
        parts.1 == (Area {
            x: 0,
            y: if screen.height >= 1 {
                (screen.height - 1) as u16
            } else {
                0
            },
            width: screen.width,
            height: 1,
        }),
{
    let display_height: u16 = if screen.height >= 1 {
        screen.height - 1
    } else {
        0
    };
    (
        Area { x: 0, y: 0, width: screen.width, height: display_height },
        Area { x: 0, y: display_height, width: screen.width, height: 1 },
    )
}

/// Whether an image of the given size is downsampled before it is shown
/// fullscreen: when its longer side reaches the limit.
pub fn needs_downsample(width: u32, height: u32) -> (needed: bool)
    ensures
        needed == (width >= FULLSCREEN_MAX_DIMENSION || height >= FULLSCREEN_MAX_DIMENSION),
{
    width >= FULLSCREEN_MAX_DIMENSION || height >= FULLSCREEN_MAX_DIMENSION
}

} // verus!

//! The state of one typing test: the lines of words on screen, the words as
//! they were first shown, and where the player's cursor stands.

use vstd::prelude::*;
use vstd::utf8::encode_utf8;
use crate::text::{
    join_string, join_words, join_chars, word_span, lemma_join_len, lemma_word_span_prefix, decimal,
    push_decimal, string_from,
};
use crate::config::Color;
use crate::words::{total_len, lemma_total_len_nonneg};
use crate::keyboard::Key;

verus! {

/// A bound on the size of a line (in characters) and on the number of lines,
/// well above any terminal width; it keeps every position an `i32` and the
/// UTF-8 size of a line a `usize`.
pub const LINE_LIMIT: usize = 0x4000_0000;

/// The player's cursor: a character offset within a line and a line number.
pub struct Player {
    pub position_x: i32,
    pub position_y: i32,
}

impl Player {
    /// A cursor at the start of the first line.
    pub fn new() -> (p: Self)
        ensures
            p.position_x == 0,
            p.position_y == 0,
    {
        Player { position_x: 0, position_y: 0 }
    }
}

/// One test. `list` holds the lines as they stand now, with the extra
/// characters that the player typed inside them; `original_list` holds them as
/// they were first shown. `selected_word_index` counts the words of the current
/// line that the cursor has passed, and `jump_position` is where the last jump
/// to a word's end landed.
pub struct Game {
    pub list: Vec<Vec<String>>,
    pub original_list: Vec<Vec<String>>,
    pub player: Player,
    pub jump_position: i32,
    pub selected_word_index: i32,
    pub quit: bool,
}

/// The mathematical content of a `Game`, without its quit flag.
pub struct GameState {
    pub list: Seq<Seq<Seq<char>>>,
    pub original: Seq<Seq<Seq<char>>>,
    pub px: int,
    pub py: int,
    pub jump: int,
    pub swi: int,
}

impl View for Game {
    type V = GameState;

    open spec fn view(&self) -> GameState {
        GameState {
            list: self.list.deep_view(),
            original: self.original_list.deep_view(),
            px: self.player.position_x as int,
            py: self.player.position_y as int,
            jump: self.jump_position as int,
            swi: self.selected_word_index as int,
        }
    }
}

/// A line of words whose size stays within `LINE_LIMIT`.
pub open spec fn words_bounded(words: Seq<Seq<char>>) -> bool {
    &&& words.len() <= LINE_LIMIT
    &&& word_span(words, words.len() as int) <= LINE_LIMIT
}

/// The line `y` of the game, as shown: its words joined by spaces.
pub open spec fn line_of(g: GameState, y: int) -> Seq<char> {
    join_words(g.list[y])
}

/// The line that the cursor is on.
pub open spec fn current_line(g: GameState) -> Seq<char> {
    line_of(g, g.py)
}

/// The invariant of a game in play: as many shown lines as original ones, the
/// cursor on a line or just past the last one, nothing negative, and every line
/// of bounded size.
pub open spec fn game_wf(g: GameState) -> bool {
    &&& g.original.len() == g.list.len()
    &&& g.list.len() <= LINE_LIMIT
    &&& 0 <= g.py <= g.list.len()
    &&& 0 <= g.px
    &&& 0 <= g.swi
    &&& 0 <= g.jump <= LINE_LIMIT
    &&& forall|y: int| 0 <= y < g.list.len() ==> #[trigger] words_bounded(g.list[y])
    &&& forall|y: int| 0 <= y < g.original.len() ==> #[trigger] words_bounded(g.original[y])
}

/// A character never takes less than one byte of UTF-8, nor more than four.
pub proof fn lemma_utf8_len(s: Seq<char>)
    ensures
        s.len() <= encode_utf8(s).len() <= 4 * s.len(),
    decreases s.len(),
{
    if s.len() > 0 {
        lemma_utf8_len(s.drop_first());
    }
}

/// A copy of a line of words.
pub fn clone_words(words: &Vec<String>) -> (r: Vec<String>)
    ensures
        r.deep_view() == words.deep_view(),
{
    let mut r: Vec<String> = Vec::new();
    let mut i: usize = 0;
    while i < words.len()
        invariant
            i <= words.len(),
            r.deep_view() == words.deep_view().take(i as int),
        decreases words.len() - i,
    {
        let w = words[i].clone();
        assert(w@ == words.deep_view()[i as int]);
        let ghost before = r.deep_view();
        r.push(w);
        assert(r.deep_view() =~= before.push(w@));
        assert(r.deep_view() =~= words.deep_view().take(i + 1));
        i = i + 1;
    }
    assert(words.deep_view().take(words.len() as int) =~= words.deep_view());
    r
}

/// A copy of a list of lines.
pub fn clone_lines(lines: &Vec<Vec<String>>) -> (r: Vec<Vec<String>>)
    ensures
        r.deep_view() == lines.deep_view(),
{
    let mut r: Vec<Vec<String>> = Vec::new();
    let mut i: usize = 0;
    while i < lines.len()
        invariant
            i <= lines.len(),
            r.deep_view() == lines.deep_view().take(i as int),
        decreases lines.len() - i,
    {
        let w = clone_words(&lines[i]);
        assert(w.deep_view() == lines.deep_view()[i as int]);
        let ghost before = r.deep_view();
        r.push(w);
        assert(r.deep_view() =~= before.push(w.deep_view()));
        assert(r.deep_view() =~= lines.deep_view().take(i + 1));
        i = i + 1;
    }
    assert(lines.deep_view().take(lines.len() as int) =~= lines.deep_view());
    r
}

impl Game {
    /// A test over the given lines, with the cursor at the start.
    pub fn new(list: Vec<Vec<String>>) -> (g: Self)
        ensures
            g@ == (GameState {
                list: list.deep_view(),
                original: list.deep_view(),
                px: 0,
                py: 0,
                jump: 0,
                swi: 0,
            }),
            !g.quit,
    {
        Game {
            original_list: clone_lines(&list),
            list,
            player: Player::new(),
            jump_position: 0,
            selected_word_index: 0,
            quit: false,
        }
    }

    /// The line `index` as shown: its words joined by single spaces.
    pub fn get_word_string(&self, index: i32) -> (r: String)
        requires
            0 <= index < self.list.len(),
        ensures
            r@ == line_of(self@, index as int),
    {
        join_string(&self.list[index as usize])
    }
}

/// Where the player's cursor stood at a moment of a test, in milliseconds from
/// its first keystroke; a recorded test is replayed as a ghost from these.
#[derive(Debug, Clone, Copy, PartialEq, Eq, Structural)]
pub struct GhostFrame {
    pub elapsed_ms: u64,
    pub position_x: i32,
    pub position_y: i32,
}

/// The number of characters of a line, one separator between words included.
pub open spec fn shown_len(words: Seq<Seq<char>>) -> int {
    total_len(words) + if words.len() > 0 { words.len() - 1 } else { 0 }
}

/// The column at which a line starts when it is centred on `cols` columns,
/// never left of `min_pad` (a line length past `u16` wraps, as a cast does).
pub open spec fn line_x(words: Seq<Seq<char>>, cols: u16, min_pad: u16) -> u16 {
    let half = (shown_len(words) % 0x10000) / 2;
    let center = cols / 2;
    let x = if center >= half { center - half } else { 0 };
    if x >= min_pad {
        x as u16
    } else {
        min_pad
    }
}

/// The characters of each line, with one more per word, can be counted in a
/// `usize`.
pub open spec fn line_sizes_fit(lines: Seq<Seq<Seq<char>>>) -> bool {
    forall|i: int| 0 <= i < lines.len() ==> total_len(#[trigger] lines[i]) + lines[i].len() <= usize::MAX
}

/// The column at which each line starts when centred on `cols` columns.
pub fn calc_line_xs(game: &Game, cols: u16, min_pad: u16) -> (r: Vec<u16>)
    requires
        line_sizes_fit(game@.list),
    ensures
        r@.len() == game@.list.len(),
        forall|i: int| 0 <= i < r@.len() ==> r@[i] == line_x(#[trigger] game@.list[i], cols, min_pad),
{
    let mut r: Vec<u16> = Vec::new();
    let mut i: usize = 0;
    while i < game.list.len()
        invariant
            line_sizes_fit(game@.list),
            i <= game.list.len(),
            r@.len() == i,
            forall|k: int| 0 <= k < i ==> r@[k] == line_x(#[trigger] game@.list[k], cols, min_pad),
        decreases game.list.len() - i,
    {
        let words = &game.list[i];
        let ghost ws = game@.list[i as int];
        proof {
            assert(total_len(ws) + ws.len() <= usize::MAX);
            lemma_total_len_nonneg(ws);
        }
        let mut letters: usize = 0;
        let mut k: usize = 0;
        while k < words.len()
            invariant
                ws == words.deep_view(),
                total_len(ws) + ws.len() <= usize::MAX,
                k <= words.len(),
                letters == total_len(ws.take(k as int)),
            decreases words.len() - k,
        {
            proof {
                crate::words::lemma_total_len_prefix(ws, k + 1);
                assert(ws.take(k + 1).drop_last() =~= ws.take(k as int));
                lemma_total_len_nonneg(ws.take(k as int));
            }
            letters = letters + words[k].as_str().unicode_len();
            k = k + 1;
        }
        assert(ws.take(words.len() as int) =~= ws);
        let line_len: usize = letters + if words.len() > 0 { words.len() - 1 } else { 0 };
        let wrapped = line_len as u16;
        assert((line_len as u16) == line_len % 0x10000) by (bit_vector);
        let center = cols / 2;
        let x = if center >= wrapped / 2 { center - wrapped / 2 } else { 0 };
        let x = if x >= min_pad { x } else { min_pad };
        r.push(x);
        i = i + 1;
    }
    r
}

/// The number of characters of the first `n` lines, separators included.
pub open spec fn lines_len(lines: Seq<Seq<Seq<char>>>, n: int) -> int
    decreases n,
{
    if n <= 0 {
        0
    } else {
        lines_len(lines, n - 1) + join_words(lines[n - 1]).len()
    }
}

/// `lines_len` never decreases as more lines are counted.
pub proof fn lemma_lines_len_mono(lines: Seq<Seq<Seq<char>>>, m: int, n: int)
    requires
        0 <= m <= n,
    ensures
        0 <= lines_len(lines, m) <= lines_len(lines, n),
    decreases n,
{
    if m < n {
        lemma_lines_len_mono(lines, m, n - 1);
    } else if n > 0 {
        lemma_lines_len_mono(lines, n - 1, n - 1);
    }
}

/// The offset of position (`x`, `y`) counted from the start of the test:
/// the characters of the lines above it, and `x`.
pub fn total_chars(x: i32, y: i32, words: &[Vec<String>]) -> (r: i32)
    requires
        y >= 0,
        lines_len(words@.map_values(|l: Vec<String>| l.deep_view()), if y < words@.len() { y as int } else { words@.len() as int })
            + if x > 0 { x as int } else { 0 } <= i32::MAX,
    ensures
        r == lines_len(words@.map_values(|l: Vec<String>| l.deep_view()), if y < words@.len() { y as int } else { words@.len() as int }) + x,
{
    let ghost ls = words@.map_values(|l: Vec<String>| l.deep_view());
    let n: usize = if (y as usize) < words.len() { y as usize } else { words.len() };
    let mut total: i32 = 0;
    let mut i: usize = 0;
    while i < n
        invariant
            ls == words@.map_values(|l: Vec<String>| l.deep_view()),
            n <= words@.len(),
            i <= n,
            lines_len(ls, n as int) + if x > 0 { x as int } else { 0 } <= i32::MAX,
            total == lines_len(ls, i as int),
        decreases n - i,
    {
        let line = join_chars(&words[i]);
        proof {
            lemma_lines_len_mono(ls, i + 1, n as int);
            lemma_lines_len_mono(ls, i as int, i as int);
        }
        total = total + line.len() as i32;
        i = i + 1;
    }
    proof {
        lemma_lines_len_mono(ls, n as int, n as int);
    }
    total + x
}

/// The ghost frame shown `elapsed` milliseconds into a test: the last frame
/// recorded at or before that moment, if any.
pub fn ghost_frame_at(frames: &Vec<GhostFrame>, elapsed: u64) -> (r: Option<GhostFrame>)
    ensures
        match r {
            None => forall|i: int| 0 <= i < frames@.len() ==> (#[trigger] frames@[i]).elapsed_ms > elapsed,
            Some(f) => exists|i: int|
                0 <= i < frames@.len() && #[trigger] frames@[i] == f && f.elapsed_ms <= elapsed
                    && forall|j: int| i < j < frames@.len() ==> (#[trigger] frames@[j]).elapsed_ms > elapsed,
        },
{
    let mut i: usize = frames.len();
    while i > 0
        invariant
            i <= frames@.len(),
            forall|j: int| i <= j < frames@.len() ==> (#[trigger] frames@[j]).elapsed_ms > elapsed,
        decreases i,
    {
        if frames[i - 1].elapsed_ms <= elapsed {
            return Some(frames[i - 1]);
        }
        i = i - 1;
    }
    None
}

/// Whether the player has typed past position (`x`, `y`).
pub fn player_passed(player: &Player, x: i32, y: i32) -> (r: bool)
    ensures
        r == (player.position_y > y || (player.position_y == y && player.position_x > x)),
{
    player.position_y > y || (player.position_y == y && player.position_x > x)
}

/// How far the player is ahead of the ghost (`+` and the characters), behind
/// it (`-` and the characters), or level with it (`=`).
pub open spec fn diff_text(diff: int) -> Seq<char> {
    if diff > 0 {
        seq!['+'] + decimal(diff as nat)
    } else if diff < 0 {
        seq!['-'] + decimal((-diff) as nat)
    } else {
        seq!['=']
    }
}

/// The line under the text that compares the player with the ghost.
pub open spec fn ghost_label_text(diff: int) -> Seq<char> {
    seq!['g', 'h', 'o', 's', 't', ':', ' '] + diff_text(diff) + seq![' ', ' ']
}

/// The line under the text that compares the player with the ghost, when the
/// player has typed `diff` more characters than the ghost.
pub fn ghost_label(diff: i32) -> (r: String)
    ensures
        r@ == ghost_label_text(diff as int),
{
    let mut v: Vec<char> = Vec::new();
    v.push('g');
    v.push('h');
    v.push('o');
    v.push('s');
    v.push('t');
    v.push(':');
    v.push(' ');
    let ghost head = v@;
    if diff > 0 {
        v.push('+');
        push_decimal(&mut v, diff as u64);
    } else if diff < 0 {
        v.push('-');
        let magnitude: u32 = if diff == i32::MIN { 0x8000_0000 } else { (-diff) as u32 };
        push_decimal(&mut v, magnitude as u64);
    } else {
        v.push('=');
    }
    assert(v@ =~= head + diff_text(diff as int));
    v.push(' ');
    v.push(' ');
    assert(v@ =~= ghost_label_text(diff as int));
    string_from(&v)
}

/// The colour of the comparison with the ghost: green ahead of it, red behind
/// it, grey level with it.
pub fn ghost_label_color(diff: i32) -> (r: Color)
    ensures
        r == (if diff > 0 {
            Color::Green
        } else if diff < 0 {
            Color::Red
        } else {
            Color::Rgb { r: 120, g: 120, b: 120 }
        }),
{
    if diff > 0 {
        Color::Green
    } else if diff < 0 {
        Color::Red
    } else {
        Color::Rgb { r: 120, g: 120, b: 120 }
    }
}

/// The widest line, in characters.
pub const MAX_LINE_LENGTH: i32 = 70;

/// The margin kept on each side of the text, in columns.
pub const MIN_PADDING: u16 = 4;

/// The line length for a terminal `cols` wide: its width less the margins, at
/// most `MAX_LINE_LENGTH` and at least 20.
pub open spec fn line_length_for(cols: u16) -> int {
    let usable = cols - 2 * MIN_PADDING;
    let capped = if usable < MAX_LINE_LENGTH { usable } else { MAX_LINE_LENGTH as int };
    if capped > 20 {
        capped
    } else {
        20
    }
}

/// The column at which text of `line_length` starts on `cols` columns: centred,
/// but never left of the margin.
pub open spec fn centered_x(cols: u16, line_length: i32) -> u16 {
    let half = (if line_length >= 0 { line_length / 2 } else { -((-line_length) / 2) }) as u16;
    let x = if cols / 2 >= half { cols / 2 - half } else { 0 };
    if x >= MIN_PADDING {
        x as u16
    } else {
        MIN_PADDING
    }
}

/// Where the text goes on a terminal of `cols` columns and `rows` rows: its
/// start column, its first row, and the line length.
pub fn middle_for_size(cols: u16, rows: u16) -> (r: (u16, u16, i32))
    ensures
        r.2 == line_length_for(cols),
        r.0 == centered_x(cols, r.2),
        r.1 == (if rows >= 2 { rows - 2 } else { 0 }) / 2,
{
    let usable = (cols as i32) - (MIN_PADDING as i32 * 2);
    let capped = if usable < MAX_LINE_LENGTH { usable } else { MAX_LINE_LENGTH };
    let line_length = if capped > 20 { capped } else { 20 };
    let half = (line_length / 2) as u16;
    let x = if cols / 2 >= half { cols / 2 - half } else { 0 };
    let x = if x >= MIN_PADDING { x } else { MIN_PADDING };
    let y = (if rows >= 2 { rows - 2 } else { 0 }) / 2;
    (x, y, line_length)
}

/// Where text of `line_length` goes after the terminal is resized to `cols`
/// columns and `rows` rows: its start column and first row.
pub fn position_for_size(cols: u16, rows: u16, line_length: i32) -> (r: (u16, u16))
    ensures
        r.0 == centered_x(cols, line_length),
        r.1 == (if rows >= 2 { rows - 2 } else { 0 }) / 2,
{
    let half = (line_length / 2) as u16;
    let x = if cols / 2 >= half { cols / 2 - half } else { 0 };
    let x = if x >= MIN_PADDING { x } else { MIN_PADDING };
    let y = (if rows >= 2 { rows - 2 } else { 0 }) / 2;
    (x, y)
}

/// What the test loop does on a turn: finish, close the running second, or
/// wait for a key.
#[derive(Debug, Clone, Copy, PartialEq, Eq, Structural)]
pub enum Tick {
    Finish,
    CloseSecond,
    Wait,
}

/// The test loop's decision on a turn: the test is over once the cursor has
/// passed the last line or the time has run out; otherwise a second is closed
/// when the countdown has moved since the last turn.
pub fn tick(game: &Game, expired: bool, remaining: u64, remaining_prev: u64) -> (r: Tick)
    ensures
        r == if game.player.position_y == game.list.len() as i32 || expired {
            Tick::Finish
        } else if remaining != remaining_prev {
            Tick::CloseSecond
        } else {
            Tick::Wait
        },
{
    if game.player.position_y == game.list.len() as i32 || expired {
        Tick::Finish
    } else if remaining != remaining_prev {
        Tick::CloseSecond
    } else {
        Tick::Wait
    }
}

/// Whether a key ends the program: Escape, or Control-C.
pub fn close_typy(code: &Key, control: bool) -> (r: Option<()>)
    ensures
        r is Some <==> (*code == Key::Esc || (*code == Key::Char('c') && control)),
{
    match code {
        Key::Esc => Some(()),
        Key::Char(c) => {
            if *c == 'c' && control {
                Some(())
            } else {
                None
            }
        },
        _ => None,
    }
}

/// Whether a line of words stays within `LINE_LIMIT`.
pub fn words_within_limit(words: &Vec<String>) -> (r: bool)
    ensures
        r == words_bounded(words.deep_view()),
{
    let ghost dv = words.deep_view();
    if words.len() > LINE_LIMIT {
        return false;
    }
    let mut span: usize = 0;
    let mut k: usize = 0;
    while k < words.len()
        invariant
            dv == words.deep_view(),
            k <= words.len(),
            span == word_span(dv, k as int),
            span <= LINE_LIMIT,
        decreases words.len() - k,
    {
        let n = words[k].as_str().unicode_len();
        if n >= LINE_LIMIT - span {
            proof {
                crate::text::lemma_word_span_mono(dv, k + 1, dv.len() as int);
            }
            return false;
        }
        span = span + n + 1;
        k = k + 1;
    }
    true
}

/// Whether a game satisfies `game_wf`.
pub fn game_is_wf(g: &Game) -> (r: bool)
    ensures
        r == game_wf(g@),
{
    if g.original_list.len() != g.list.len() || g.list.len() > LINE_LIMIT {
        return false;
    }
    if g.player.position_y < 0 || g.player.position_y as usize > g.list.len() || g.player.position_x < 0
        || g.selected_word_index < 0 || g.jump_position < 0 || g.jump_position as usize > LINE_LIMIT {
        return false;
    }
    let mut i: usize = 0;
    while i < g.list.len()
        invariant
            i <= g.list.len(),
            g.original_list.len() == g.list.len(),
            forall|y: int| 0 <= y < i ==> #[trigger] words_bounded(g@.list[y]),
            forall|y: int| 0 <= y < i ==> #[trigger] words_bounded(g@.original[y]),
        decreases g.list.len() - i,
    {
        let line_ok = words_within_limit(&g.list[i]);
        let original_ok = words_within_limit(&g.original_list[i]);
        proof {
            assert(g@.list[i as int] == g.list[i as int].deep_view());
            assert(g@.original[i as int] == g.original_list[i as int].deep_view());
        }
        if !line_ok || !original_ok {
            proof {
                assert(!words_bounded(g@.list[i as int]) || !words_bounded(g@.original[i as int]));
            }
            return false;
        }
        assert(words_bounded(g@.list[i as int]) && words_bounded(g@.original[i as int]));
        i = i + 1;
    }
    true
}

} // verus!

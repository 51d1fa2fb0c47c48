//! What one keystroke does to a test: the cursor moves, extra characters are
//! inserted or removed, the statistics count the letter, and the characters to
//! repaint are listed.

use vstd::prelude::*;
use vstd::utf8::encode_utf8;
use crate::text::{
    join_words, word_span, split_ws, join_chars, join_string, chars_of, string_from,
    split_whitespace, lemma_join_len, lemma_word_span_mono, lemma_split_ws_size,
};
use crate::stats::{Stats, StatsState};
use crate::game::{
    Game, GameState, LINE_LIMIT, clone_words, current_line, game_wf, line_of, lemma_utf8_len,
    words_bounded, game_is_wf,
};

verus! {

/// The byte size of a line at which no extra character is inserted into it.
pub const MAX_WORD_LENGTH: usize = 100;

/// What the input loop does after a keystroke: go on with the next event,
/// leave the loop, or carry on with this iteration.
#[derive(Debug, Clone, Copy, PartialEq, Eq, Structural)]
pub enum InputAction {
    Continue,
    Break,
    Proceed,
}

/// A keystroke that could not be handled: the character that it refers to is
/// not in the line.
#[derive(Debug, Clone, Copy, PartialEq, Eq, Structural)]
pub enum GameError {
    MissingCharacter,
}

/// A key as the game sees it.
#[derive(Debug, Clone, Copy, PartialEq, Eq, Structural)]
pub enum Key {
    Char(char),
    Backspace,
    Esc,
    Left,
    Right,
    Enter,
    Tab,
    Other,
}

/// How repainted text looks: typed correctly, typed wrong, typed beyond a
/// word's end (underlined), or not typed yet.
#[derive(Debug, Clone, Copy, PartialEq, Eq, Structural)]
pub enum Style {
    Typed,
    Wrong,
    Extra,
    Pending,
}

/// Text to paint at column `col` of line `row`, both counted in characters
/// from the start of the line.
#[derive(Debug)]
pub struct Paint {
    pub col: i32,
    pub row: i32,
    pub style: Style,
    pub text: String,
}

/// The mathematical content of a `Paint`.
pub struct PaintView {
    pub col: int,
    pub row: int,
    pub style: Style,
    pub text: Seq<char>,
}

impl DeepView for Paint {
    type V = PaintView;

    open spec fn deep_view(&self) -> PaintView {
        PaintView { col: self.col as int, row: self.row as int, style: self.style, text: self.text@ }
    }
}

/// The smaller of two integers.
pub open spec fn min_int(a: int, b: int) -> int {
    if a <= b {
        a
    } else {
        b
    }
}

/// The UTF-8 size of a text, in bytes.
pub open spec fn byte_len(s: Seq<char>) -> int {
    encode_utf8(s).len() as int
}

/// The first `n` characters of `s`, or all of them.
pub open spec fn prefix(s: Seq<char>, n: int) -> Seq<char> {
    if n <= s.len() {
        s.take(n)
    } else {
        s
    }
}

/// The characters of `s` from offset `n` on, or none.
pub open spec fn suffix(s: Seq<char>, n: int) -> Seq<char> {
    if n <= s.len() {
        s.skip(n)
    } else {
        seq![]
    }
}

/// Where the cursor lands when a space ends word `swi` of a line: on the space
/// after that word (or after the last word).
pub open spec fn jump_target(words: Seq<Seq<char>>, swi: int) -> int {
    word_span(words, min_int(swi + 1, words.len() as int)) - 1
}

/// What a space does before it is checked as a character. At the start of a
/// line it is ignored. After a space, or inside a word, it falls through and is
/// checked like any other character, so that it counts as an error. After the
/// last word of a line it moves to the next line; after another word it moves
/// the cursor onto the space that ends that word.
pub open spec fn spec_handle_space(g: GameState) -> (GameState, Result<InputAction, GameError>) {
    let line = current_line(g);
    if g.px == 0 {
        (g, Ok(InputAction::Continue))
    } else if g.px - 1 >= line.len() {
        (g, Err(GameError::MissingCharacter))
    } else if line[g.px - 1] == ' ' {
        (g, Ok(InputAction::Proceed))
    } else if g.px < line.len() && line[g.px] != ' ' {
        (g, Ok(InputAction::Proceed))
    } else if g.swi == g.list[g.py].len() - 1 {
        (GameState { px: 0, py: g.py + 1, jump: 0, swi: 0, ..g }, Ok(InputAction::Continue))
    } else {
        let j = jump_target(g.list[g.py], g.swi);
        (GameState { jump: j, px: j, swi: g.swi + 1, ..g }, Ok(InputAction::Proceed))
    }
}

/// Inserting `c` as an extra character at the cursor: the line is re-split at
/// whitespace, `c` is painted underlined and the rest of the line after it.
pub open spec fn spec_add_incorrect(g: GameState, c: char) -> (GameState, Seq<PaintView>) {
    let line = current_line(g);
    let before = prefix(line, g.px);
    let after = suffix(line, g.px);
    (
        GameState { list: g.list.update(g.py, split_ws(before + seq![c] + after)), ..g },
        seq![
            PaintView { col: g.px, row: g.py, style: Style::Extra, text: seq![c] },
            PaintView { col: g.px + 1, row: g.py, style: Style::Pending, text: after },
        ],
    )
}

/// Counting `c` against the character under the cursor and moving past it,
/// where that character is a letter or `c` is a space (a letter typed on a
/// space is an extra character instead: `spec_add_extra`).
pub open spec fn spec_update(g: GameState, s: StatsState, c: char) -> (GameState, StatsState, Result<InputAction, GameError>) {
    let line = current_line(g);
    if g.px >= line.len() {
        (g, s, Err(GameError::MissingCharacter))
    } else {
        let e = line[g.px];
        let s2 = if c == e {
            StatsState { letter_count: s.letter_count + 1, ..s }
        } else {
            StatsState {
                letter_count: s.letter_count + 1,
                incorrect_letters: s.incorrect_letters + 1,
                current_errors: s.current_errors + 1,
                ..s
            }
        };
        let g2 = GameState { px: g.px + 1, ..g };
        (g2, s2, Ok(InputAction::Proceed))
    }
}

/// The effect of one keystroke.
pub struct Step {
    pub game: GameState,
    pub stats: StatsState,
    pub outcome: Result<InputAction, GameError>,
    pub paints: Seq<PaintView>,
}

/// Typing `c` where no letter is expected (after a word's end): `c` is inserted
/// as an extra character and the cursor moves past it; it counts as a letter,
/// an incorrect one, an extra one, and an error of the running second.
pub open spec fn spec_add_extra(g: GameState, s: StatsState, c: char) -> Step {
    let (g2, paints) = spec_add_incorrect(g, c);
    Step {
        game: GameState { px: g2.px + 1, ..g2 },
        stats: StatsState {
            letter_count: s.letter_count + 1,
            incorrect_letters: s.incorrect_letters + 1,
            extra_chars: s.extra_chars + 1,
            current_errors: s.current_errors + 1,
            ..s
        },
        outcome: Ok(InputAction::Proceed),
        paints,
    }
}

/// Typing `c` over the character under the cursor. A match is painted as
/// typed. A mismatch with a space is an extra character (`spec_add_extra`),
/// unless the line is already `MAX_WORD_LENGTH` bytes long, in which case
/// nothing happens. Any other mismatch paints the expected character as wrong.
pub open spec fn spec_handle_chars(g: GameState, s: StatsState, c: char) -> Step {
    let line = current_line(g);
    let e = line[g.px];
    if c != e && e == ' ' {
        if byte_len(line) >= MAX_WORD_LENGTH {
            Step { game: g, stats: s, outcome: Ok(InputAction::Continue), paints: seq![] }
        } else {
            spec_add_extra(g, s, c)
        }
    } else {
        let paints = if c == e {
            seq![PaintView { col: g.px, row: g.py, style: Style::Typed, text: seq![c] }]
        } else {
            seq![PaintView { col: g.px, row: g.py, style: Style::Wrong, text: seq![e] }]
        };
        let (g2, s2, r) = spec_update(g, s, c);
        Step { game: g2, stats: s2, outcome: r, paints }
    }
}

/// The character of the original line at offset `pos`, or a space.
pub open spec fn original_char(g: GameState, pos: int) -> char {
    let o = join_words(g.original[g.py]);
    if 0 <= pos < o.len() {
        o[pos]
    } else {
        ' '
    }
}

/// The word of `words` (from the `i`-th on) whose characters cover offset
/// `pos` of their join, with its start; or word 0 and the end of the line.
pub open spec fn find_word(words: Seq<Seq<char>>, pos: int, i: int) -> (int, int)
    decreases words.len() - i,
{
    if i < 0 || i >= words.len() {
        (0, word_span(words, words.len() as int))
    } else if word_span(words, i) <= pos < word_span(words, i) + words[i].len() {
        (i, word_span(words, i))
    } else {
        find_word(words, pos, i + 1)
    }
}

/// The word that `find_word` picks is a word of the line, or word 0.
pub proof fn lemma_find_word_bounds(words: Seq<Seq<char>>, pos: int, i: int)
    ensures
        0 <= find_word(words, pos, i).0,
        find_word(words, pos, i).0 < words.len() || find_word(words, pos, i).0 == 0,
    decreases words.len() - i,
{
    if 0 <= i < words.len() && !(word_span(words, i) <= pos < word_span(words, i) + words[i].len()) {
        lemma_find_word_bounds(words, pos, i + 1);
    }
}

/// The inputs on which a backspace is defined: when it looks for an extra
/// character to remove, the character before the cursor lies in a word or
/// after the line's end in a way that indexes that word.
pub open spec fn backspace_defined(g: GameState) -> bool {
    let line = current_line(g);
    let prev = g.px - 1;
    let ws = g.list[g.py];
    let os = g.original[g.py];
    let (idx, start) = find_word(ws, prev, 0);
    (g.px > 0 && !(prev < line.len() && line[prev] == ' ') && idx < os.len()) ==> {
        &&& idx < ws.len()
        &&& ws[idx].len() > os[idx].len() ==> {
            &&& prev >= start
            &&& prev - start >= os[idx].len() ==> prev - start < ws[idx].len()
        }
    }
}

/// What a backspace does. At the start of a line it goes back to the end of
/// the previous one, on its last word, as it was before the space that ended
/// that line. After a space it goes back into the previous word. Over an
/// extra character it removes it and repaints the rest of the line; over any
/// other character it repaints the original character as not typed.
pub open spec fn spec_backspace(g: GameState) -> (GameState, Seq<PaintView>) {
    if g.px <= 0 {
        if g.py <= 0 {
            (g, seq![])
        } else {
            let y = g.py - 1;
            let ws = g.list[y];
            let wc = ws.len() as int;
            (
                GameState {
                    py: y,
                    px: join_words(ws).len() as int,
                    swi: if wc > 0 { wc - 1 } else { 0 },
                    jump: if wc > 1 { word_span(ws, wc - 1) - 1 } else { 0 },
                    ..g
                },
                seq![],
            )
        }
    } else {
        let line = current_line(g);
        let prev = g.px - 1;
        if prev < line.len() && line[prev] == ' ' {
            if g.swi <= 0 {
                (g, seq![])
            } else {
                let s = g.swi - 1;
                let j = if s == 0 {
                    0
                } else {
                    word_span(g.list[g.py], min_int(s, g.list[g.py].len() as int)) - 1
                };
                (
                    GameState { px: prev, swi: s, jump: j, ..g },
                    seq![PaintView { col: prev, row: g.py, style: Style::Pending, text: seq![original_char(g, prev)] }],
                )
            }
        } else {
            let ws = g.list[g.py];
            let os = g.original[g.py];
            let (idx, start) = find_word(ws, prev, 0);
            if idx < os.len() && ws[idx].len() > os[idx].len() && prev - start >= os[idx].len() {
                let ws2 = ws.update(idx, ws[idx].remove(prev - start));
                (
                    GameState { px: prev, list: g.list.update(g.py, ws2), ..g },
                    seq![PaintView { col: prev, row: g.py, style: Style::Pending, text: suffix(join_words(ws2), prev).push(' ') }],
                )
            } else {
                (
                    GameState { px: prev, ..g },
                    seq![PaintView { col: prev, row: g.py, style: Style::Pending, text: seq![original_char(g, prev)] }],
                )
            }
        }
    }
}

/// The effect of a key on a test.
pub open spec fn spec_handle_input(g: GameState, s: StatsState, key: Key) -> Step {
    match key {
        Key::Char(c) => {
            let (g1, r1) = if c == ' ' { spec_handle_space(g) } else { (g, Ok(InputAction::Proceed)) };
            if r1 != Ok::<InputAction, GameError>(InputAction::Proceed) {
                Step { game: g1, stats: s, outcome: r1, paints: seq![] }
            } else {
                let line = current_line(g1);
                if g1.px < line.len() {
                    spec_handle_chars(g1, s, c)
                } else if byte_len(line) < MAX_WORD_LENGTH {
                    spec_add_extra(g1, s, c)
                } else {
                    Step { game: g1, stats: s, outcome: Ok(InputAction::Proceed), paints: seq![] }
                }
            }
        },
        Key::Backspace => {
            let (g1, p) = spec_backspace(g);
            Step { game: g1, stats: s, outcome: Ok(InputAction::Proceed), paints: p }
        },
        _ => Step { game: g, stats: s, outcome: Ok(InputAction::Proceed), paints: seq![] },
    }
}

/// The conditions under which a keystroke can be handled: a game in play with
/// the cursor on a line, counters and positions that can still grow by one,
/// and, for a backspace, a defined target.
pub open spec fn input_ready(g: GameState, s: StatsState, key: Key) -> bool {
    &&& game_wf(g)
    &&& g.py < g.list.len()
    &&& g.px < i32::MAX
    &&& g.swi < i32::MAX - 1
    &&& s.letter_count < i32::MAX
    &&& s.incorrect_letters < i32::MAX
    &&& s.extra_chars < i32::MAX
    &&& s.current_errors < i32::MAX
    &&& key == Key::Backspace ==> backspace_defined(g)
}

/// The number of characters of a word.
fn word_len(w: &String) -> (r: usize)
    ensures
        r == w@.len(),
{
    w.as_str().unicode_len()
}

/// `word_span` of the first `n` words of a bounded line.
fn span_of(words: &Vec<String>, n: usize) -> (r: usize)
    requires
        n <= words.len(),
        words_bounded(words.deep_view()),
    ensures
        r == word_span(words.deep_view(), n as int),
{
    let ghost dv = words.deep_view();
    let mut total: usize = 0;
    let mut k: usize = 0;
    while k < n
        invariant
            dv == words.deep_view(),
            n <= words.len(),
            words_bounded(dv),
            k <= n,
            total == word_span(dv, k as int),
        decreases n - k,
    {
        proof {
            lemma_word_span_mono(dv, k + 1, dv.len() as int);
        }
        total = total + word_len(&words[k]) + 1;
        k = k + 1;
    }
    total
}

/// The characters of the line that the cursor is on.
fn cursor_line(game: &Game) -> (r: Vec<char>)
    requires
        game_wf(game@),
        game@.py < game@.list.len(),
    ensures
        r@ == current_line(game@),
        r@.len() <= LINE_LIMIT,
{
    let r = join_chars(&game.list[game.player.position_y as usize]);
    proof {
        let ws = game@.list[game@.py];
        assert(words_bounded(ws));
        lemma_join_len(ws);
    }
    r
}

/// The byte size of the line that the cursor is on.
fn cursor_line_bytes(game: &Game) -> (r: usize)
    requires
        game_wf(game@),
        game@.py < game@.list.len(),
    ensures
        r as int == byte_len(current_line(game@)),
{
    let s = game.get_word_string(game.player.position_y);
    proof {
        let ws = game@.list[game@.py];
        assert(words_bounded(ws));
        lemma_join_len(ws);
        lemma_utf8_len(s@);
    }
    s.as_str().len()
}

/// A space at the start of a line is ignored.
fn handle_start_of_line(game: &Game) -> (r: InputAction)
    ensures
        r == (if game@.px == 0 { InputAction::Continue } else { InputAction::Proceed }),
{
    if game.player.position_x == 0 {
        return InputAction::Continue;
    }
    InputAction::Proceed
}

/// A space right after a space is not a jump: it falls through (`Continue`).
fn handle_space_at_start(game: &Game) -> (r: Result<InputAction, GameError>)
    requires
        game_wf(game@),
        game@.py < game@.list.len(),
        game@.px >= 1,
    ensures
        r == (if game@.px - 1 >= current_line(game@).len() {
            Err(GameError::MissingCharacter)
        } else if current_line(game@)[game@.px - 1] == ' ' {
            Ok(InputAction::Continue)
        } else {
            Ok(InputAction::Proceed)
        }),
{
    let line = cursor_line(game);
    let p = (game.player.position_x - 1) as usize;
    if p >= line.len() {
        return Err(GameError::MissingCharacter);
    }
    if line[p] == ' ' {
        return Ok(InputAction::Continue);
    }
    Ok(InputAction::Proceed)
}

/// A space inside a word is not a jump either: it falls through (`Continue`)
/// and is counted as a wrong character.
fn handle_space_mid_word(game: &Game) -> (r: InputAction)
    requires
        game_wf(game@),
        game@.py < game@.list.len(),
    ensures
        r == (if game@.px < current_line(game@).len() && current_line(game@)[game@.px] != ' ' {
            InputAction::Continue
        } else {
            InputAction::Proceed
        }),
{
    let line = cursor_line(game);
    let p = game.player.position_x as usize;
    if p < line.len() && line[p] != ' ' {
        return InputAction::Continue;
    }
    InputAction::Proceed
}

/// A space after the last word of a line moves to the start of the next line.
fn handle_end_of_line(game: &mut Game) -> (r: Result<InputAction, GameError>)
    requires
        game_wf(old(game)@),
        old(game)@.py < old(game)@.list.len(),
    ensures
        final(game).quit == old(game).quit,
        if old(game)@.swi == old(game)@.list[old(game)@.py].len() - 1 {
            &&& final(game)@ == (GameState { px: 0, py: old(game)@.py + 1, jump: 0, swi: 0, ..old(game)@ })
            &&& r == Ok::<InputAction, GameError>(InputAction::Continue)
        } else {
            &&& final(game)@ == old(game)@
            &&& r == Ok::<InputAction, GameError>(InputAction::Proceed)
        },
{
    let n = game.list[game.player.position_y as usize].len();
    proof {
        assert(words_bounded(old(game)@.list[old(game)@.py]));
    }
    if game.selected_word_index == n as i32 - 1 {
        if game.player.position_y == game.list.len() as i32 {
            return Ok(InputAction::Break);
        }
        game.player.position_x = 0;
        game.player.position_y = game.player.position_y + 1;
        game.jump_position = 0;
        game.selected_word_index = 0;
        return Ok(InputAction::Continue);
    }
    Ok(InputAction::Proceed)
}

/// A space after any other word moves the cursor onto the space that ends it.
fn handle_jump_position(game: &mut Game)
    requires
        game_wf(old(game)@),
        old(game)@.py < old(game)@.list.len(),
        old(game)@.swi < i32::MAX,
    ensures
        final(game).quit == old(game).quit,
        final(game)@ == (GameState {
            jump: jump_target(old(game)@.list[old(game)@.py], old(game)@.swi),
            px: jump_target(old(game)@.list[old(game)@.py], old(game)@.swi),
            swi: old(game)@.swi + 1,
            ..old(game)@
        }),
{
    let py = game.player.position_y as usize;
    let n = game.list[py].len();
    let want = game.selected_word_index as usize + 1;
    let take = if want < n { want } else { n };
    proof {
        assert(words_bounded(old(game)@.list[old(game)@.py]));
    }
    let span = span_of(&game.list[py], take);
    proof {
        lemma_word_span_mono(old(game)@.list[old(game)@.py], take as int, n as int);
    }
    let j = span as i32 - 1;
    game.jump_position = j;
    game.player.position_x = j;
    game.selected_word_index = game.selected_word_index + 1;
}

/// What a space does before it is checked as a character; see `spec_handle_space`.
fn handle_space(game: &mut Game) -> (r: Result<InputAction, GameError>)
    requires
        game_wf(old(game)@),
        old(game)@.py < old(game)@.list.len(),
        old(game)@.swi < i32::MAX,
    ensures
        final(game).quit == old(game).quit,
        (final(game)@, r) == spec_handle_space(old(game)@),
{
    if let InputAction::Continue = handle_start_of_line(game) {
        return Ok(InputAction::Continue);
    }
    match handle_space_at_start(game) {
        Err(e) => return Err(e),
        Ok(InputAction::Continue) => return Ok(InputAction::Proceed),
        _ => {},
    }
    if let InputAction::Continue = handle_space_mid_word(game) {
        return Ok(InputAction::Proceed);
    }
    if let InputAction::Continue = handle_end_of_line(game)? {
        return Ok(InputAction::Continue);
    }
    handle_jump_position(game);
    Ok(InputAction::Proceed)
}

/// Inserting an extra character keeps a game well formed.
pub proof fn lemma_add_incorrect_wf(g: GameState, c: char)
    requires
        game_wf(g),
        g.py < g.list.len(),
        byte_len(current_line(g)) < MAX_WORD_LENGTH,
    ensures
        game_wf(spec_add_incorrect(g, c).0),
{
    let line = current_line(g);
    let t = prefix(line, g.px) + seq![c] + suffix(line, g.px);
    lemma_utf8_len(line);
    assert(t.len() == line.len() + 1);
    lemma_split_ws_size(t);
    let g2 = spec_add_incorrect(g, c).0;
    assert forall|y: int| 0 <= y < g2.list.len() implies #[trigger] words_bounded(g2.list[y]) by {
        if y != g.py {
            assert(words_bounded(g.list[y]));
        }
    }
}

/// A string of one character.
fn char_string(c: char) -> (r: String)
    ensures
        r@ == seq![c],
{
    let mut v: Vec<char> = Vec::new();
    v.push(c);
    string_from(&v)
}

/// Inserts `c` as an extra character at the cursor, unless the line already
/// holds `MAX_WORD_LENGTH` bytes, which is answered `Continue`.
fn add_incorrect_char(game: &mut Game, c: char, paints: &mut Vec<Paint>) -> (r: InputAction)
    requires
        game_wf(old(game)@),
        old(game)@.py < old(game)@.list.len(),
        old(game)@.px < i32::MAX,
    ensures
        final(game).quit == old(game).quit,
        byte_len(current_line(old(game)@)) >= MAX_WORD_LENGTH ==> {
            &&& r == InputAction::Continue
            &&& final(game)@ == old(game)@
            &&& final(paints).deep_view() == old(paints).deep_view()
        },
        byte_len(current_line(old(game)@)) < MAX_WORD_LENGTH ==> {
            &&& r == InputAction::Proceed
            &&& final(game)@ == spec_add_incorrect(old(game)@, c).0
            &&& final(paints).deep_view() == old(paints).deep_view() + spec_add_incorrect(old(game)@, c).1
        },
{
    let py = game.player.position_y as usize;
    let px = game.player.position_x as usize;
    if cursor_line_bytes(game) >= MAX_WORD_LENGTH {
        return InputAction::Continue;
    }
    let line = cursor_line(game);
    let ghost l = line@;
    let mut new_line: Vec<char> = Vec::new();
    let mut after: Vec<char> = Vec::new();
    let mut i: usize = 0;
    while i < line.len()
        invariant
            l == line@,
            i <= line.len(),
            i <= px ==> new_line@ == l.take(i as int) && after@.len() == 0,
            i > px ==> new_line@ == l.take(px as int) + seq![c] + l.subrange(px as int, i as int)
                && after@ == l.subrange(px as int, i as int),
        decreases line.len() - i,
    {
        if i == px {
            new_line.push(c);
        }
        new_line.push(line[i]);
        if i >= px {
            after.push(line[i]);
        }
        proof {
            if i + 1 <= px {
                assert(new_line@ =~= l.take(i + 1));
            } else {
                assert(new_line@ =~= l.take(px as int) + seq![c] + l.subrange(px as int, i + 1));
                assert(after@ =~= l.subrange(px as int, i + 1));
            }
        }
        i = i + 1;
    }
    if px >= line.len() {
        new_line.push(c);
    }
    proof {
        assert(new_line@ =~= prefix(l, px as int) + seq![c] + suffix(l, px as int));
        assert(after@ =~= suffix(l, px as int));
    }
    let ghost old_paints = paints.deep_view();
    paints.push(Paint {
        col: game.player.position_x,
        row: game.player.position_y,
        style: Style::Extra,
        text: char_string(c),
    });
    paints.push(Paint {
        col: game.player.position_x + 1,
        row: game.player.position_y,
        style: Style::Pending,
        text: string_from(&after),
    });
    assert(paints.deep_view() =~= old_paints + spec_add_incorrect(old(game)@, c).1);
    let words = split_whitespace(&new_line);
    let ghost old_list = game.list.deep_view();
    game.list.set(py, words);
    assert(game.list.deep_view() =~= old_list.update(py as int, split_ws(new_line@)));
    InputAction::Proceed
}

/// Moves past an extra character just inserted and counts it as a letter, an
/// incorrect one, an extra one, and an error.
fn count_extra_char(game: &mut Game, stats: &mut Stats)
    requires
        old(game)@.px < i32::MAX,
        old(stats).letter_count < i32::MAX,
        old(stats).incorrect_letters < i32::MAX,
        old(stats).extra_chars < i32::MAX,
        old(stats).current_errors < i32::MAX,
    ensures
        final(game).quit == old(game).quit,
        final(game)@ == (GameState { px: old(game)@.px + 1, ..old(game)@ }),
        final(stats)@ == (StatsState {
            letter_count: old(stats)@.letter_count + 1,
            incorrect_letters: old(stats)@.incorrect_letters + 1,
            extra_chars: old(stats)@.extra_chars + 1,
            current_errors: old(stats)@.current_errors + 1,
            ..old(stats)@
        }),
{
    game.player.position_x = game.player.position_x + 1;
    stats.letter_count = stats.letter_count + 1;
    stats.incorrect_letters = stats.incorrect_letters + 1;
    stats.extra_chars = stats.extra_chars + 1;
    stats.add_error();
}

/// Counts `c` against the character under the cursor and moves past it.
fn update_game_state(game: &mut Game, stats: &mut Stats, c: char) -> (r: Result<InputAction, GameError>)
    requires
        game_wf(old(game)@),
        old(game)@.py < old(game)@.list.len(),
        old(game)@.px < i32::MAX,
        old(game)@.swi < i32::MAX,
        old(stats).letter_count < i32::MAX,
        old(stats).incorrect_letters < i32::MAX,
        old(stats).extra_chars < i32::MAX,
        old(stats).current_errors < i32::MAX,
        0 <= old(game)@.px < current_line(old(game)@).len() ==> (current_line(old(game)@)[old(game)@.px] != ' ' || c == ' '),
    ensures
        final(game).quit == old(game).quit,
        (final(game)@, final(stats)@, r) == spec_update(old(game)@, old(stats)@, c),
{
    let line = cursor_line(game);
    let p = game.player.position_x as usize;
    if p >= line.len() {
        return Err(GameError::MissingCharacter);
    }
    let expected = line[p];
    if c == expected {
        stats.letter_count = stats.letter_count + 1;
    } else {
        stats.incorrect_letters = stats.incorrect_letters + 1;
        stats.letter_count = stats.letter_count + 1;
        stats.add_error();
    }
    game.player.position_x = game.player.position_x + 1;
    Ok(InputAction::Proceed)
}

/// Typing `c` over the character under the cursor; see `spec_handle_chars`.
fn handle_chars(game: &mut Game, stats: &mut Stats, c: char, paints: &mut Vec<Paint>) -> (r: Result<InputAction, GameError>)
    requires
        game_wf(old(game)@),
        old(game)@.py < old(game)@.list.len(),
        old(game)@.px < current_line(old(game)@).len(),
        old(game)@.px < i32::MAX,
        old(game)@.swi < i32::MAX,
        old(stats).letter_count < i32::MAX,
        old(stats).incorrect_letters < i32::MAX,
        old(stats).extra_chars < i32::MAX,
        old(stats).current_errors < i32::MAX,
    ensures
        final(game).quit == old(game).quit,
        final(game)@ == spec_handle_chars(old(game)@, old(stats)@, c).game,
        final(stats)@ == spec_handle_chars(old(game)@, old(stats)@, c).stats,
        r == spec_handle_chars(old(game)@, old(stats)@, c).outcome,
        final(paints).deep_view() == old(paints).deep_view() + spec_handle_chars(old(game)@, old(stats)@, c).paints,
{
    let line = cursor_line(game);
    let p = game.player.position_x as usize;
    let expected = line[p];
    let ghost old_paints = paints.deep_view();
    if c == expected {
        paints.push(Paint {
            col: game.player.position_x,
            row: game.player.position_y,
            style: Style::Typed,
            text: char_string(c),
        });
        assert(paints.deep_view() =~= old_paints + spec_handle_chars(old(game)@, old(stats)@, c).paints);
    } else if expected == ' ' {
        if let InputAction::Continue = add_incorrect_char(game, c, paints) {
            return Ok(InputAction::Continue);
        }
        proof {
            lemma_add_incorrect_wf(old(game)@, c);
        }
        count_extra_char(game, stats);
        return Ok(InputAction::Proceed);
    } else {
        paints.push(Paint {
            col: game.player.position_x,
            row: game.player.position_y,
            style: Style::Wrong,
            text: char_string(expected),
        });
        assert(paints.deep_view() =~= old_paints + spec_handle_chars(old(game)@, old(stats)@, c).paints);
    }
    update_game_state(game, stats, c)
}

/// The character of the original line at offset `pos`, or a space.
fn original_char_at(game: &Game, pos: usize) -> (r: char)
    requires
        game_wf(game@),
        game@.py < game@.list.len(),
    ensures
        r == original_char(game@, pos as int),
{
    let o = join_chars(&game.original_list[game.player.position_y as usize]);
    if pos < o.len() {
        o[pos]
    } else {
        ' '
    }
}

/// The word of a bounded line whose characters cover offset `pos` of the
/// line, with its start; or word 0 and the end of the line.
fn find_word_at(words: &Vec<String>, pos: usize) -> (r: (usize, usize))
    requires
        words_bounded(words.deep_view()),
    ensures
        (r.0 as int, r.1 as int) == find_word(words.deep_view(), pos as int, 0),
{
    let ghost dv = words.deep_view();
    let n = words.len();
    let mut word_start: usize = 0;
    let mut i: usize = 0;
    while i < n
        invariant
            dv == words.deep_view(),
            n == words.len(),
            words_bounded(dv),
            i <= n,
            word_start == word_span(dv, i as int),
            find_word(dv, pos as int, 0) == find_word(dv, pos as int, i as int),
        decreases n - i,
    {
        proof {
            lemma_word_span_mono(dv, i + 1, n as int);
        }
        let word_end = word_start + word_len(&words[i]);
        if pos >= word_start && pos < word_end {
            return (i, word_start);
        }
        word_start = word_end + 1;
        i = i + 1;
    }
    (0, word_start)
}

/// What a backspace does; see `spec_backspace`.
fn handle_backspace(game: &mut Game, paints: &mut Vec<Paint>)
    requires
        game_wf(old(game)@),
        old(game)@.py < old(game)@.list.len(),
        backspace_defined(old(game)@),
    ensures
        final(game).quit == old(game).quit,
        final(game)@ == spec_backspace(old(game)@).0,
        final(paints).deep_view() == old(paints).deep_view() + spec_backspace(old(game)@).1,
{
    let ghost g = game@;
    let ghost old_paints = paints.deep_view();
    if game.player.position_x <= 0 {
        if game.player.position_y <= 0 {
            return;
        }
        game.player.position_y = game.player.position_y - 1;
        let py = game.player.position_y as usize;
        let prev_line = cursor_line(game);
        game.player.position_x = prev_line.len() as i32;
        let word_count = game.list[py].len();
        proof {
            assert(words_bounded(g.list[py as int]));
        }
        if word_count > 0 {
            game.selected_word_index = word_count as i32 - 1;
        } else {
            game.selected_word_index = 0;
        }
        if word_count > 1 {
            proof {
                lemma_word_span_mono(g.list[py as int], word_count - 1, word_count as int);
            }
            game.jump_position = span_of(&game.list[py], word_count - 1) as i32 - 1;
        } else {
            game.jump_position = 0;
        }
        return;
    }
    let py = game.player.position_y as usize;
    proof {
        assert(words_bounded(g.list[py as int]));
        assert(words_bounded(g.original[py as int]));
    }
    let line = cursor_line(game);
    let prev_pos = (game.player.position_x - 1) as usize;
    if prev_pos < line.len() && line[prev_pos] == ' ' {
        if game.selected_word_index <= 0 {
            return;
        }
        let orig = original_char_at(game, prev_pos);
        game.player.position_x = game.player.position_x - 1;
        game.selected_word_index = game.selected_word_index - 1;
        if game.selected_word_index == 0 {
            game.jump_position = 0;
        } else {
            let n = game.list[py].len();
            let want = game.selected_word_index as usize;
            let take = if want < n { want } else { n };
            let span = span_of(&game.list[py], take);
            proof {
                lemma_word_span_mono(g.list[py as int], take as int, n as int);
            }
            game.jump_position = span as i32 - 1;
        }
        paints.push(Paint {
            col: game.player.position_x,
            row: game.player.position_y,
            style: Style::Pending,
            text: char_string(orig),
        });
        assert(paints.deep_view() =~= old_paints + spec_backspace(g).1);
        return;
    }
    game.player.position_x = game.player.position_x - 1;
    let pos = prev_pos;
    let (word_idx, word_start) = find_word_at(&game.list[py], pos);
    let orig_n = game.original_list[py].len();
    if word_idx < orig_n && word_len(&game.list[py][word_idx]) > word_len(&game.original_list[py][word_idx]) {
        let pos_in_word = pos - word_start;
        if pos_in_word >= word_len(&game.original_list[py][word_idx]) {
            let mut word_chars = chars_of(game.list[py][word_idx].as_str());
            word_chars.remove(pos_in_word);
            let new_word = string_from(&word_chars);
            let mut new_words = clone_words(&game.list[py]);
            let ghost ws_before = new_words.deep_view();
            new_words.set(word_idx, new_word);
            assert(new_words.deep_view() =~= ws_before.update(word_idx as int, word_chars@));
            let ghost old_list = game.list.deep_view();
            game.list.set(py, new_words);
            assert(game.list.deep_view() =~= old_list.update(py as int, new_words.deep_view()));
            let new_line = join_chars(&game.list[py]);
            let mut remaining: Vec<char> = Vec::new();
            let mut i: usize = pos;
            while i < new_line.len()
                invariant
                    pos <= i <= new_line.len() || (i == pos && pos > new_line.len()),
                    i <= new_line.len() ==> remaining@ == new_line@.subrange(pos as int, i as int),
                    i > new_line.len() ==> remaining@.len() == 0,
                decreases new_line.len() - i,
            {
                remaining.push(new_line[i]);
                assert(remaining@ =~= new_line@.subrange(pos as int, i + 1));
                i = i + 1;
            }
            remaining.push(' ');
            assert(remaining@ =~= suffix(new_line@, pos as int).push(' '));
            paints.push(Paint {
                col: game.player.position_x,
                row: game.player.position_y,
                style: Style::Pending,
                text: string_from(&remaining),
            });
            assert(paints.deep_view() =~= old_paints + spec_backspace(g).1);
            return;
        }
    }
    let orig = original_char_at(game, pos);
    paints.push(Paint {
        col: game.player.position_x,
        row: game.player.position_y,
        style: Style::Pending,
        text: char_string(orig),
    });
    assert(paints.deep_view() =~= old_paints + spec_backspace(g).1);
}

/// A space that falls through keeps the game well formed, on the same line.
pub proof fn lemma_space_proceed_wf(g: GameState)
    requires
        game_wf(g),
        g.py < g.list.len(),
        spec_handle_space(g).1 == Ok::<InputAction, GameError>(InputAction::Proceed),
    ensures
        game_wf(spec_handle_space(g).0),
        spec_handle_space(g).0.py == g.py,
        spec_handle_space(g).0.list == g.list,
        spec_handle_space(g).0.px == g.px || spec_handle_space(g).0.px <= LINE_LIMIT,
        spec_handle_space(g).0.swi <= g.swi + 1,
{
    let ws = g.list[g.py];
    assert(words_bounded(ws));
    if ws.len() == 0 {
        assert(join_words(ws).len() == 0);
    }
    let k = min_int(g.swi + 1, ws.len() as int);
    lemma_word_span_mono(ws, 0, k);
    lemma_word_span_mono(ws, k, ws.len() as int);
}

/// Handles one key: the effect on the game, the statistics and the repaints
/// is `spec_handle_input`.
pub fn handle_input(game: &mut Game, code: Key, stats: &mut Stats, paints: &mut Vec<Paint>) -> (r: Result<InputAction, GameError>)
    requires
        input_ready(old(game)@, old(stats)@, code),
    ensures
        final(game).quit == old(game).quit,
        final(game)@ == spec_handle_input(old(game)@, old(stats)@, code).game,
        final(stats)@ == spec_handle_input(old(game)@, old(stats)@, code).stats,
        r == spec_handle_input(old(game)@, old(stats)@, code).outcome,
        final(paints).deep_view() == old(paints).deep_view() + spec_handle_input(old(game)@, old(stats)@, code).paints,
{
    let ghost old_paints = paints.deep_view();
    match code {
        Key::Char(c) => {
            if c == ' ' {
                match handle_space(game)? {
                    InputAction::Continue => {
                        assert(paints.deep_view() =~= old_paints + seq![]);
                        return Ok(InputAction::Continue);
                    },
                    InputAction::Break => return Ok(InputAction::Break),
                    InputAction::Proceed => {},
                }
                proof {
                    lemma_space_proceed_wf(old(game)@);
                }
            }
            let line_len = cursor_line(game).len();
            if game.player.position_x < line_len as i32 {
                match handle_chars(game, stats, c, paints)? {
                    InputAction::Continue => return Ok(InputAction::Continue),
                    InputAction::Break => return Ok(InputAction::Break),
                    InputAction::Proceed => {},
                }
            } else if cursor_line_bytes(game) < MAX_WORD_LENGTH {
                let _ = add_incorrect_char(game, c, paints);
                count_extra_char(game, stats);
            } else {
                assert(paints.deep_view() =~= old_paints + seq![]);
            }
        },
        Key::Backspace => {
            handle_backspace(game, paints);
        },
        _ => {
            assert(paints.deep_view() =~= old_paints + seq![]);
        },
    }
    Ok(InputAction::Proceed)
}

/// Whether a backspace is defined on a game in play (`backspace_defined`).
fn backspace_is_defined(game: &Game) -> (r: bool)
    requires
        game_wf(game@),
        game@.py < game@.list.len(),
    ensures
        r == backspace_defined(game@),
{
    let ghost g = game@;
    if game.player.position_x <= 0 {
        return true;
    }
    let py = game.player.position_y as usize;
    proof {
        assert(words_bounded(g.list[py as int]));
        assert(words_bounded(g.original[py as int]));
    }
    let line = cursor_line(game);
    let prev = (game.player.position_x - 1) as usize;
    if prev < line.len() && line[prev] == ' ' {
        return true;
    }
    let (idx, start) = find_word_at(&game.list[py], prev);
    if idx >= game.original_list[py].len() {
        return true;
    }
    if idx >= game.list[py].len() {
        return false;
    }
    let wl = word_len(&game.list[py][idx]);
    let ol = word_len(&game.original_list[py][idx]);
    if wl > ol {
        if prev < start {
            return false;
        }
        if prev - start >= ol && prev - start >= wl {
            return false;
        }
    }
    true
}

/// Whether `handle_input` may be called with this game, statistics and key
/// (`input_ready`).
pub fn can_handle(game: &Game, stats: &Stats, code: Key) -> (r: bool)
    ensures
        r == input_ready(game@, stats@, code),
{
    if !game_is_wf(game) {
        return false;
    }
    if game.player.position_y as usize >= game.list.len() {
        return false;
    }
    if game.player.position_x == i32::MAX || game.selected_word_index >= i32::MAX - 1 {
        return false;
    }
    if stats.letter_count == i32::MAX || stats.incorrect_letters == i32::MAX || stats.extra_chars == i32::MAX
        || stats.current_errors == i32::MAX {
        return false;
    }
    match code {
        Key::Backspace => backspace_is_defined(game),
        _ => true,
    }
}

} // verus!

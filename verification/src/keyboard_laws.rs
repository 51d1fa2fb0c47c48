//! Properties of keystrokes: what a letter, a space and a backspace do, the
//! invariant that every keystroke keeps, and what a backspace undoes.

use vstd::prelude::*;
use crate::text::{
    join_words, word_span, split_ws, all_words, is_word, is_white_space, lemma_join_len,
    lemma_word_span_mono, lemma_word_span_prefix, lemma_word_span_update, lemma_split_join,
    lemma_join_split_at, lemma_join_extend_last,
};
use crate::stats::StatsState;
use crate::game::{GameState, LINE_LIMIT, current_line, game_wf, words_bounded};
use crate::keyboard::{GameError, spec_handle_chars, jump_target};
use crate::keyboard::{
    InputAction, Key, Style, PaintView, MAX_WORD_LENGTH, spec_handle_input, spec_handle_space,
    spec_backspace, spec_add_incorrect, find_word, backspace_defined, input_ready, min_int,
    byte_len, prefix, suffix, lemma_add_incorrect_wf, lemma_space_proceed_wf, lemma_find_word_bounds,
};

verus! {

/// A backspace keeps a game well formed.
pub proof fn lemma_backspace_keeps_wf(g: GameState)
    requires
        game_wf(g),
        g.py < g.list.len(),
        backspace_defined(g),
    ensures
        game_wf(spec_backspace(g).0),
{
    let g2 = spec_backspace(g).0;
    if g.px <= 0 {
        if g.py > 0 {
            let ws = g.list[g.py - 1];
            assert(words_bounded(ws));
            lemma_join_len(ws);
            lemma_word_span_mono(ws, 0, ws.len() as int);
        }
    } else {
        let line = current_line(g);
        let prev = g.px - 1;
        let ws = g.list[g.py];
        assert(words_bounded(ws));
        if prev < line.len() && line[prev] == ' ' {
            if g.swi > 0 && g.swi - 1 != 0 {
                if ws.len() == 0 {
                    assert(join_words(ws).len() == 0);
                }
                let k = min_int(g.swi - 1, ws.len() as int);
                lemma_word_span_mono(ws, 0, k);
                lemma_word_span_mono(ws, k, ws.len() as int);
            }
        } else {
            let os = g.original[g.py];
            let (idx, start) = find_word(ws, prev, 0);
            lemma_find_word_bounds(ws, prev, 0);
            if idx < os.len() && ws[idx].len() > os[idx].len() && prev - start >= os[idx].len() {
                let w2 = ws[idx].remove(prev - start);
                lemma_word_span_update(ws, idx, w2, ws.len() as int);
                let ws2 = ws.update(idx, w2);
                assert forall|y: int| 0 <= y < g2.list.len() implies #[trigger] words_bounded(g2.list[y]) by {
                    if y != g.py {
                        assert(words_bounded(g.list[y]));
                    }
                }
            }
        }
    }
}

/// Every keystroke that can be handled leaves a well-formed game: as many
/// shown lines as original ones, the cursor on a line or just past the last,
/// nothing negative, and every line of bounded size.
pub proof fn lemma_handle_input_keeps_wf(g: GameState, s: StatsState, key: Key)
    requires
        input_ready(g, s, key),
    ensures
        game_wf(spec_handle_input(g, s, key).game),
{
    match key {
        Key::Char(c) => {
            let (g1, r1) = if c == ' ' { spec_handle_space(g) } else { (g, Ok(InputAction::Proceed)) };
            if c == ' ' {
                let ws = g.list[g.py];
                assert(words_bounded(ws));
                if r1 == Ok::<InputAction, crate::keyboard::GameError>(InputAction::Proceed) {
                    lemma_space_proceed_wf(g);
                }
            }
            if r1 == Ok::<InputAction, crate::keyboard::GameError>(InputAction::Proceed) {
                let line = current_line(g1);
                if g1.px < line.len() {
                    let e = line[g1.px];
                    if c != e && e == ' ' && byte_len(line) < MAX_WORD_LENGTH {
                        lemma_add_incorrect_wf(g1, c);
                    }
                } else if byte_len(line) < MAX_WORD_LENGTH {
                    lemma_add_incorrect_wf(g1, c);
                }
            }
        },
        Key::Backspace => {
            lemma_backspace_keeps_wf(g);
        },
        _ => {},
    }
}

/// A space typed inside a word does not skip the rest of the word: it is
/// counted as a wrong letter, the expected letter is painted as wrong, and the
/// cursor moves on by one.
pub proof fn lemma_space_inside_word_is_error(g: GameState, s: StatsState)
    requires
        input_ready(g, s, Key::Char(' ')),
        0 < g.px < current_line(g).len(),
        current_line(g)[g.px] != ' ',
    ensures
        spec_handle_input(g, s, Key::Char(' ')).game == (GameState { px: g.px + 1, ..g }),
        spec_handle_input(g, s, Key::Char(' ')).stats == (StatsState {
            letter_count: s.letter_count + 1,
            incorrect_letters: s.incorrect_letters + 1,
            current_errors: s.current_errors + 1,
            ..s
        }),
        spec_handle_input(g, s, Key::Char(' ')).outcome == Ok::<InputAction, crate::keyboard::GameError>(InputAction::Proceed),
        spec_handle_input(g, s, Key::Char(' ')).paints == seq![
            PaintView { col: g.px, row: g.py, style: Style::Wrong, text: seq![current_line(g)[g.px]] },
        ],
{
}

/// Typing the letter under the cursor counts one letter and no error, paints
/// it as typed, and moves the cursor on by one.
pub proof fn lemma_correct_letter_advances(g: GameState, s: StatsState, c: char)
    requires
        input_ready(g, s, Key::Char(c)),
        c != ' ',
        0 <= g.px < current_line(g).len(),
        current_line(g)[g.px] == c,
    ensures
        spec_handle_input(g, s, Key::Char(c)).game == (GameState { px: g.px + 1, ..g }),
        spec_handle_input(g, s, Key::Char(c)).stats == (StatsState { letter_count: s.letter_count + 1, ..s }),
        spec_handle_input(g, s, Key::Char(c)).outcome == Ok::<InputAction, crate::keyboard::GameError>(InputAction::Proceed),
        spec_handle_input(g, s, Key::Char(c)).paints == seq![
            PaintView { col: g.px, row: g.py, style: Style::Typed, text: seq![c] },
        ],
{
}

/// Typing another letter than the one under the cursor, inside a word, counts
/// one letter and one error, paints the expected letter as wrong, and moves the
/// cursor on by one.
pub proof fn lemma_wrong_letter_is_error(g: GameState, s: StatsState, c: char)
    requires
        input_ready(g, s, Key::Char(c)),
        c != ' ',
        0 <= g.px < current_line(g).len(),
        current_line(g)[g.px] != c,
        current_line(g)[g.px] != ' ',
    ensures
        spec_handle_input(g, s, Key::Char(c)).game == (GameState { px: g.px + 1, ..g }),
        spec_handle_input(g, s, Key::Char(c)).stats == (StatsState {
            letter_count: s.letter_count + 1,
            incorrect_letters: s.incorrect_letters + 1,
            current_errors: s.current_errors + 1,
            ..s
        }),
        spec_handle_input(g, s, Key::Char(c)).outcome == Ok::<InputAction, crate::keyboard::GameError>(InputAction::Proceed),
        spec_handle_input(g, s, Key::Char(c)).paints == seq![
            PaintView { col: g.px, row: g.py, style: Style::Wrong, text: seq![current_line(g)[g.px]] },
        ],
{
}

/// On a line that holds no extra characters, a backspace right after a letter
/// was typed over a letter (or a space typed inside a word) puts the test back
/// where it was; the statistics keep the keystroke.
pub proof fn lemma_backspace_undoes_letter(g: GameState, s: StatsState, c: char)
    requires
        input_ready(g, s, Key::Char(c)),
        g.px < current_line(g).len(),
        current_line(g)[g.px] != ' ',
        c != ' ' || g.px > 0,
        g.list[g.py] == g.original[g.py],
    ensures
        backspace_defined(spec_handle_input(g, s, Key::Char(c)).game),
        spec_handle_input(
            spec_handle_input(g, s, Key::Char(c)).game,
            spec_handle_input(g, s, Key::Char(c)).stats,
            Key::Backspace,
        ).game == g,
{
    let g1 = spec_handle_input(g, s, Key::Char(c)).game;
    assert(g1 == GameState { px: g.px + 1, ..g });
    let ws = g.list[g.py];
    lemma_find_word_bounds(ws, g.px, 0);
}

/// `find_word` skips words that end before `pos`.
proof fn lemma_find_word_skip(words: Seq<Seq<char>>, pos: int, i: int, k: int)
    requires
        0 <= i <= k < words.len(),
        word_span(words, k) <= pos,
    ensures
        find_word(words, pos, i) == find_word(words, pos, k),
    decreases k - i,
{
    if i < k {
        lemma_word_span_mono(words, i + 1, k);
        lemma_find_word_skip(words, pos, i + 1, k);
    }
}

/// On a line of plain words that holds no extra characters, a letter typed on
/// the space after a word is appended to that word as an extra character, and
/// a backspace right after removes it and puts the test back where it was.
pub proof fn lemma_backspace_removes_extra_letter(g: GameState, s: StatsState, c: char, k: int)
    requires
        input_ready(g, s, Key::Char(c)),
        !is_white_space(c),
        all_words(g.list[g.py]),
        g.list[g.py] == g.original[g.py],
        0 <= k < g.list[g.py].len() - 1,
        g.px == word_span(g.list[g.py], k + 1) - 1,
        byte_len(current_line(g)) < MAX_WORD_LENGTH,
    ensures
        spec_handle_input(g, s, Key::Char(c)).game.list[g.py] == g.list[g.py].update(k, g.list[g.py][k].push(c)),
        backspace_defined(spec_handle_input(g, s, Key::Char(c)).game),
        spec_handle_input(
            spec_handle_input(g, s, Key::Char(c)).game,
            spec_handle_input(g, s, Key::Char(c)).stats,
            Key::Backspace,
        ).game == g,
{
    let ws = g.list[g.py];
    let line = current_line(g);
    let head = ws.take(k + 1);
    let tail = ws.skip(k + 1);
    lemma_join_split_at(ws, k + 1);
    lemma_word_span_prefix(head, ws, k + 1);
    lemma_join_len(head);
    assert(join_words(head).len() == g.px);
    assert(line[g.px] == ' ');
    assert(prefix(line, g.px) =~= join_words(head));
    assert(suffix(line, g.px) =~= seq![' '] + join_words(tail));
    let ws2 = ws.update(k, ws[k].push(c));
    let head2 = ws2.take(k + 1);
    assert(head2 =~= head.update(k, head.last().push(c)));
    lemma_join_extend_last(head, c);
    assert(ws2.skip(k + 1) =~= tail);
    lemma_join_split_at(ws2, k + 1);
    let t = prefix(line, g.px) + seq![c] + suffix(line, g.px);
    assert(t =~= join_words(ws2));
    assert forall|i: int| 0 <= i < ws2.len() implies #[trigger] is_word(ws2[i]) by {
        assert(is_word(ws[i]));
        if i == k {
            assert(forall|j: int| 0 <= j < ws2[i].len() ==> ws2[i][j] == if j < ws[k].len() { ws[k][j] } else { c });
        }
    }
    lemma_split_join(ws2);
    assert(split_ws(t) == ws2);
    let g1 = spec_add_incorrect(g, c).0;
    assert(g1.list[g.py] == ws2);
    assert(current_line(g1) == join_words(ws2));
    assert(current_line(g1)[g.px] == c);
    let g2 = spec_handle_input(g, s, Key::Char(c)).game;
    assert(g2 == GameState { px: g.px + 1, ..g1 });
    // The backspace finds word `k` under the extra letter.
    lemma_word_span_prefix(ws2, ws, k);
    lemma_word_span_mono(ws, k + 1, k + 1);
    lemma_find_word_skip(ws2, g.px, 0, k);
    assert(find_word(ws2, g.px, 0) == (k, word_span(ws, k)));
    assert(ws2[k].remove(ws[k].len() as int) =~= ws[k]);
    assert(ws2.update(k, ws[k]) =~= ws);
    assert(g.list.update(g.py, ws2).update(g.py, ws) =~= g.list);
}

/// The character of a line at a position in word `k` is that word's
/// character there, and the position just after a word that is not the last
/// holds a space.
proof fn lemma_join_at(ws: Seq<Seq<char>>, k: int, p: int)
    requires
        0 <= k < ws.len(),
        word_span(ws, k) <= p <= word_span(ws, k) + ws[k].len(),
        p < join_words(ws).len(),
    ensures
        p < word_span(ws, k) + ws[k].len() ==> join_words(ws)[p] == ws[k][p - word_span(ws, k)],
        p == word_span(ws, k) + ws[k].len() ==> join_words(ws)[p] == ' ',
    decreases ws.len(),
{
    let n = ws.len() as int;
    lemma_word_span_mono(ws, 0, k);
    if n == 1 {
        assert(join_words(ws) == ws[0]);
        assert(word_span(ws, 0) == 0);
    } else {
        let d = ws.drop_last();
        let jd = join_words(d);
        lemma_join_len(d);
        lemma_join_len(ws);
        lemma_word_span_prefix(ws, d, n - 1);
        assert(join_words(ws) == jd + seq![' '] + ws.last());
        assert(jd.len() == word_span(ws, n - 1) - 1);
        if k < n - 1 {
            lemma_word_span_prefix(ws, d, k);
            lemma_word_span_mono(ws, k + 1, n - 1);
            assert(d[k] == ws[k]);
            if p < jd.len() {
                lemma_join_at(d, k, p);
                assert(join_words(ws)[p] == jd[p]);
            } else {
                assert(p == jd.len());
                assert(join_words(ws)[p] == ' ');
                assert(word_span(ws, k + 1) == word_span(ws, k) + ws[k].len() + 1);
            }
        } else {
            lemma_word_span_mono(ws, n - 1, n);
            assert(p >= jd.len() + 1);
            assert(join_words(ws)[p] == ws.last()[p - jd.len() - 1]);
        }
    }
}

/// On a line of plain words that holds no extra characters, a letter typed
/// after the last word is appended to it as an extra character, and a
/// backspace right after removes it and puts the test back where it was.
pub proof fn lemma_backspace_removes_last_extra_letter(g: GameState, s: StatsState, c: char)
    requires
        input_ready(g, s, Key::Char(c)),
        !is_white_space(c),
        all_words(g.list[g.py]),
        g.list[g.py] == g.original[g.py],
        g.list[g.py].len() > 0,
        g.px == current_line(g).len(),
        byte_len(current_line(g)) < MAX_WORD_LENGTH,
    ensures
        spec_handle_input(g, s, Key::Char(c)).game.list[g.py] == g.list[g.py].update(
            g.list[g.py].len() - 1,
            g.list[g.py].last().push(c),
        ),
        backspace_defined(spec_handle_input(g, s, Key::Char(c)).game),
        spec_handle_input(
            spec_handle_input(g, s, Key::Char(c)).game,
            spec_handle_input(g, s, Key::Char(c)).stats,
            Key::Backspace,
        ).game == g,
{
    let ws = g.list[g.py];
    let n = ws.len() as int;
    let line = current_line(g);
    lemma_join_len(ws);
    let ws2 = ws.update(n - 1, ws[n - 1].push(c));
    lemma_join_extend_last(ws, c);
    assert(prefix(line, g.px) =~= line);
    assert(suffix(line, g.px) =~= Seq::<char>::empty());
    let t = prefix(line, g.px) + seq![c] + suffix(line, g.px);
    assert(t =~= join_words(ws2));
    assert forall|i: int| 0 <= i < ws2.len() implies #[trigger] is_word(ws2[i]) by {
        assert(is_word(ws[i]));
        if i == n - 1 {
            assert(forall|j: int| 0 <= j < ws2[i].len() ==> ws2[i][j] == if j < ws[i].len() { ws[i][j] } else { c });
        }
    }
    lemma_split_join(ws2);
    assert(split_ws(t) == ws2);
    let g1 = spec_add_incorrect(g, c).0;
    assert(g1.list[g.py] == ws2);
    let g2 = spec_handle_input(g, s, Key::Char(c)).game;
    assert(g2 == GameState { px: g.px + 1, ..g1 });
    assert(current_line(g2) == join_words(ws2));
    assert(current_line(g2)[g.px] == c);
    lemma_word_span_prefix(ws2, ws, n - 1);
    lemma_word_span_mono(ws, n - 1, n);
    lemma_find_word_skip(ws2, g.px, 0, n - 1);
    assert(find_word(ws2, g.px, 0) == (n - 1, word_span(ws, n - 1)));
    assert(ws2[n - 1].remove(ws[n - 1].len() as int) =~= ws[n - 1]);
    assert(ws2.update(n - 1, ws[n - 1]) =~= ws);
    assert(g.list.update(g.py, ws2).update(g.py, ws) =~= g.list);
}

/// The cursor stands in word `swi` of its line, or on the space (or the line's
/// end) right after it, and the jump position is where the space after the word
/// before it landed: the state that typing the line word by word leads to.
pub open spec fn cursor_in_word(g: GameState) -> bool {
    let ws = g.list[g.py];
    &&& 0 <= g.swi < ws.len()
    &&& word_span(ws, g.swi) <= g.px <= word_span(ws, g.swi + 1) - 1
    &&& g.jump == if g.swi == 0 { 0 } else { word_span(ws, g.swi) - 1 }
}

/// Backspace undoes a keystroke. On a line of plain words that holds no extra
/// characters, with the cursor in its word, a letter (correct, wrong, or extra
/// after a word's end) or a space that stays on the line, followed by a
/// backspace, puts the test back where it was.
pub proof fn lemma_backspace_undoes_keystroke(g: GameState, s: StatsState, c: char)
    requires
        input_ready(g, s, Key::Char(c)),
        all_words(g.list[g.py]),
        g.list[g.py] == g.original[g.py],
        byte_len(current_line(g)) < MAX_WORD_LENGTH,
        cursor_in_word(g),
        !is_white_space(c) || (c == ' ' && spec_handle_space(g).1 == Ok::<InputAction, GameError>(InputAction::Proceed)),
    ensures
        backspace_defined(spec_handle_input(g, s, Key::Char(c)).game),
        spec_handle_input(
            spec_handle_input(g, s, Key::Char(c)).game,
            spec_handle_input(g, s, Key::Char(c)).stats,
            Key::Backspace,
        ).game == g,
{
    let ws = g.list[g.py];
    let n = ws.len() as int;
    let line = current_line(g);
    let k = g.swi;
    let a = word_span(ws, k);
    let b = a + ws[k].len();
    assert(is_word(ws[k]));
    lemma_join_len(ws);
    lemma_word_span_mono(ws, k + 1, n);
    assert(word_span(ws, k + 1) == b + 1);
    if k < n - 1 {
        lemma_word_span_mono(ws, k + 1, n - 1);
        lemma_word_span_mono(ws, n - 1, n);
    }
    if g.px < b {
        lemma_join_at(ws, k, g.px);
        assert(!is_white_space(ws[k][g.px - a]));
        if c == ' ' && g.px == 0 {
            assert(spec_handle_space(g).1 == Ok::<InputAction, GameError>(InputAction::Continue));
        }
        lemma_backspace_undoes_letter(g, s, c);
    } else if k < n - 1 {
        lemma_join_at(ws, k, g.px);
        assert(line[g.px] == ' ');
        if !is_white_space(c) {
            lemma_backspace_removes_extra_letter(g, s, c, k);
        } else {
            lemma_join_at(ws, k, g.px - 1);
            assert(!is_white_space(ws[k][g.px - 1 - a]));
            assert(line[g.px - 1] != ' ');
            assert(jump_target(ws, k) == b);
            let g1 = GameState { jump: b, px: b, swi: k + 1, ..g };
            assert(spec_handle_space(g) == (g1, Ok::<InputAction, GameError>(InputAction::Proceed)));
            assert(current_line(g1) == line);
            assert(spec_handle_chars(g1, s, c).game == GameState { px: b + 1, ..g1 });
            let g2 = spec_handle_input(g, s, Key::Char(c)).game;
            assert(g2 == GameState { px: b + 1, ..g1 });
            assert(min_int(k, n) == k);
        }
    } else {
        assert(g.px == line.len());
        if !is_white_space(c) {
            lemma_backspace_removes_last_extra_letter(g, s, c);
        } else {
            lemma_join_at(ws, k, g.px - 1);
            assert(!is_white_space(ws[k][g.px - 1 - a]));
            assert(spec_handle_space(g).1 == Ok::<InputAction, GameError>(InputAction::Continue));
        }
    }
}

/// A space after the last word of a line moves to the start of the next line,
/// and a backspace right after goes back to where that space was typed.
pub proof fn lemma_backspace_undoes_line_change(g: GameState, s: StatsState)
    requires
        input_ready(g, s, Key::Char(' ')),
        all_words(g.list[g.py]),
        cursor_in_word(g),
        g.swi == g.list[g.py].len() - 1,
        g.px == current_line(g).len(),
    ensures
        spec_handle_input(g, s, Key::Char(' ')).game == (GameState { px: 0, py: g.py + 1, jump: 0, swi: 0, ..g }),
        spec_handle_input(g, s, Key::Char(' ')).outcome == Ok::<InputAction, GameError>(InputAction::Continue),
        spec_handle_input(
            spec_handle_input(g, s, Key::Char(' ')).game,
            spec_handle_input(g, s, Key::Char(' ')).stats,
            Key::Backspace,
        ).game == g,
{
    let ws = g.list[g.py];
    let n = ws.len() as int;
    let k = g.swi;
    let a = word_span(ws, k);
    assert(is_word(ws[k]));
    lemma_join_len(ws);
    lemma_word_span_mono(ws, n - 1, n);
    lemma_join_at(ws, k, g.px - 1);
    assert(!is_white_space(ws[k][g.px - 1 - a]));
}

/// Every word shown starts with the letters of the word it was given as, and
/// may carry extra characters after them: the state that typing (with extra
/// characters) and backspaces keep.
pub open spec fn words_extend_originals(g: GameState) -> bool {
    &&& g.list.len() == g.original.len()
    &&& forall|y: int| 0 <= y < g.list.len() ==> (#[trigger] g.list[y]).len() == g.original[y].len()
    &&& forall|y: int, k: int|
        0 <= y < g.list.len() && 0 <= k < g.list[y].len() ==> {
            &&& g.original[y][k].len() <= (#[trigger] g.list[y][k]).len()
            &&& g.list[y][k].subrange(0, g.original[y][k].len() as int) == g.original[y][k]
        }
}

/// A backspace never removes a letter of the words as given: it only ever
/// removes an extra character past the end of a given word, so every word still
/// starts with the letters it was given with.
pub proof fn lemma_backspace_keeps_original_letters(g: GameState)
    requires
        game_wf(g),
        g.py < g.list.len(),
        backspace_defined(g),
        words_extend_originals(g),
    ensures
        words_extend_originals(spec_backspace(g).0),
        spec_backspace(g).0.original == g.original,
{
    let g2 = spec_backspace(g).0;
    if g.px > 0 {
        let line = current_line(g);
        let prev = g.px - 1;
        if !(prev < line.len() && line[prev] == ' ') {
            let ws = g.list[g.py];
            let os = g.original[g.py];
            let (i, start) = find_word(ws, prev, 0);
            lemma_find_word_bounds(ws, prev, 0);
            if i < os.len() && ws[i].len() > os[i].len() && prev - start >= os[i].len() {
                let w2 = ws[i].remove(prev - start);
                let ws2 = ws.update(i, w2);
                assert(g2.list == g.list.update(g.py, ws2));
                assert(w2.subrange(0, os[i].len() as int) =~= ws[i].subrange(0, os[i].len() as int));
                assert forall|y: int, k: int|
                    0 <= y < g2.list.len() && 0 <= k < g2.list[y].len() implies {
                        &&& g2.original[y][k].len() <= (#[trigger] g2.list[y][k]).len()
                        &&& g2.list[y][k].subrange(0, g2.original[y][k].len() as int) == g2.original[y][k]
                    } by {
                    if y == g.py && k == i {
                        assert(g2.list[y][k] == w2);
                    } else {
                        assert(g2.list[y][k] == g.list[y][k]);
                    }
                }
            }
        }
    }
}

/// A space typed right after the last character of a word that is not the
/// last of its line moves on to the next word, whatever extra characters the
/// line holds: the cursor passes the space that ends the word, the word index
/// moves on by one, the jump position marks that space, and the space counts as
/// a correct letter.
pub proof fn lemma_space_after_word_moves_to_next_word(g: GameState, s: StatsState)
    requires
        input_ready(g, s, Key::Char(' ')),
        0 <= g.swi < g.list[g.py].len() - 1,
        is_word(g.list[g.py][g.swi]),
        g.px == word_span(g.list[g.py], g.swi + 1) - 1,
    ensures
        current_line(g)[g.px] == ' ',
        spec_handle_input(g, s, Key::Char(' ')).game == (GameState { px: g.px + 1, swi: g.swi + 1, jump: g.px, ..g }),
        spec_handle_input(g, s, Key::Char(' ')).stats == (StatsState { letter_count: s.letter_count + 1, ..s }),
        spec_handle_input(g, s, Key::Char(' ')).outcome == Ok::<InputAction, GameError>(InputAction::Proceed),
{
    let ws = g.list[g.py];
    let n = ws.len() as int;
    let k = g.swi;
    let a = word_span(ws, k);
    let b = g.px;
    lemma_join_len(ws);
    lemma_word_span_mono(ws, k + 1, n - 1);
    lemma_word_span_mono(ws, n - 1, n);
    assert(word_span(ws, k + 1) == a + ws[k].len() + 1);
    lemma_join_at(ws, k, b);
    lemma_join_at(ws, k, b - 1);
    assert(!is_white_space(ws[k][b - 1 - a]));
    lemma_word_span_mono(ws, 0, k);
    let line = current_line(g);
    assert(b < line.len());
    assert(line[b] == ' ');
    assert(line[b - 1] != ' ');
    assert(g.swi != n - 1);
    assert(min_int(k + 1, n) == k + 1);
    assert(jump_target(ws, k) == b);
    let g1 = GameState { jump: b, px: b, swi: k + 1, ..g };
    assert(spec_handle_space(g) == (g1, Ok::<InputAction, GameError>(InputAction::Proceed)));
    assert(current_line(g1) == current_line(g));
}

/// A space typed right after the last character of the last word of a line
/// moves to the start of the next line, on its first word, whatever extra
/// characters the line holds; it is not counted.
pub proof fn lemma_space_after_last_word_moves_to_next_line(g: GameState, s: StatsState)
    requires
        input_ready(g, s, Key::Char(' ')),
        g.list[g.py].len() > 0,
        g.swi == g.list[g.py].len() - 1,
        is_word(g.list[g.py][g.swi]),
        g.px == current_line(g).len(),
    ensures
        spec_handle_input(g, s, Key::Char(' ')).game == (GameState { px: 0, py: g.py + 1, jump: 0, swi: 0, ..g }),
        spec_handle_input(g, s, Key::Char(' ')).stats == s,
        spec_handle_input(g, s, Key::Char(' ')).outcome == Ok::<InputAction, GameError>(InputAction::Continue),
{
    let ws = g.list[g.py];
    let n = ws.len() as int;
    let k = g.swi;
    let a = word_span(ws, k);
    lemma_join_len(ws);
    lemma_word_span_mono(ws, n - 1, n);
    lemma_join_at(ws, k, g.px - 1);
    assert(!is_white_space(ws[k][g.px - 1 - a]));
}

} // verus!

//! The results screen: where its parts go on the terminal, the columns of the
//! menu entries, the order of the leaderboard, the seconds marked with errors
//! on the graph, and the confetti of a personal best.

use vstd::prelude::*;
use vstd::utf8::encode_utf8;
use crate::config::Color;
use crate::menu::MenuItem;
use crate::rng::{thread_rng, random_below, choose_item};
use crate::text::{decimal, push_decimal, push_chars, string_from, str_equals};

verus! {

/// Columns kept free left of the statistics.
pub const CONTENT_PAD_LEFT: u16 = 4;
/// Rows between the top of the graph and the first statistic.
pub const GRAPH_PAD_Y: u16 = 1;
/// Width of the column of statistics left of the graph.
pub const LEFT_WIDTH: u16 = 15;
/// Columns between the statistics and the graph.
pub const GAP: u16 = 3;

/// `a - b`, or zero where that is negative.
pub open spec fn sat_sub(a: int, b: int) -> int {
    if a > b { a - b } else { 0 }
}

/// `v` cut down to `hi`, then raised to `lo`.
pub open spec fn bounded(v: int, lo: int, hi: int) -> int {
    let m = if v < hi { v } else { hi };
    if m > lo { m } else { lo }
}

/// Width of the graph on `cols` columns.
pub open spec fn graph_width_for(cols: int) -> int {
    bounded(sat_sub(cols, 30), 30, 80)
}

/// Height of the graph on `rows` rows.
pub open spec fn graph_height_for(rows: int) -> int {
    bounded(sat_sub(rows, 18), 6, 12)
}

/// Left column of the graph: centred.
pub open spec fn graph_x_for(cols: int) -> int {
    sat_sub(cols, graph_width_for(cols)) / 2
}

/// Left column of the statistics: left of the graph, within the margin.
pub open spec fn left_x_for(cols: int) -> int {
    let x = sat_sub(graph_x_for(cols), (GAP + LEFT_WIDTH) as int);
    if x > CONTENT_PAD_LEFT { x } else { CONTENT_PAD_LEFT as int }
}

/// Rows taken by the graph and everything under it.
pub open spec fn content_height_for(rows: int) -> int {
    graph_height_for(rows) + GRAPH_PAD_Y + 14
}

/// Top row of the graph: the content centred, one row lower for the banner of
/// a personal best, and never above the second row of padding.
pub open spec fn graph_y_for(rows: int, personal_best: bool) -> int {
    let h = content_height_for(rows);
    let y = if personal_best { sat_sub(rows, h + 1) / 2 + 1 } else { sat_sub(rows, h) / 2 };
    if y > 1 + GRAPH_PAD_Y { y } else { 1 + GRAPH_PAD_Y as int }
}

/// Where the parts of the results screen go.
#[derive(Debug, Clone, Copy, PartialEq, Eq, Structural)]
pub struct ResultsLayout {
    pub graph_x: u16,
    pub graph_y: u16,
    pub graph_width: u16,
    pub graph_height: u16,
    /// Column of the statistics left of the graph and of the bottom rows.
    pub left_x: u16,
    /// Row of the labels of the bottom statistics.
    pub stats_y: u16,
    /// Width of each of the four bottom statistics.
    pub col_width: u16,
    pub legend_x: u16,
    pub legend_y: u16,
    /// Row of the banner of a personal best.
    pub banner_y: u16,
    pub leaderboard_y: u16,
    /// Whether the leaderboard fits above the menu.
    pub show_leaderboard: bool,
    pub menu_y: u16,
    pub hint_y: u16,
}

/// The layout of the results screen on `cols` columns and `rows` rows.
pub open spec fn layout_for(cols: u16, rows: u16, personal_best: bool) -> ResultsLayout {
    let gw = graph_width_for(cols as int);
    let gh = graph_height_for(rows as int);
    let gx = graph_x_for(cols as int);
    let gy = graph_y_for(rows as int, personal_best);
    let stats_y = gy + gh + GRAPH_PAD_Y + 1;
    ResultsLayout {
        graph_x: gx as u16,
        graph_y: gy as u16,
        graph_width: gw as u16,
        graph_height: gh as u16,
        left_x: left_x_for(cols as int) as u16,
        stats_y: stats_y as u16,
        col_width: ((gw + GAP + LEFT_WIDTH) / 4) as u16,
        legend_x: (gx + 2) as u16,
        legend_y: (gy + gh) as u16,
        banner_y: sat_sub(gy, 1) as u16,
        leaderboard_y: (stats_y + 4) as u16,
        show_leaderboard: stats_y + 4 + 2 < sat_sub(rows as int, 4),
        menu_y: sat_sub(rows as int, 3) as u16,
        hint_y: sat_sub(rows as int, 1) as u16,
    }
}

/// On a terminal at least as wide as the narrowest graph, the graph is centred
/// (as many free columns left of it as right of it, give or take one), and the
/// statistics keep the margin.
pub proof fn lemma_graph_centred(cols: u16, rows: u16, personal_best: bool)
    requires
        cols >= 30,
    ensures
        ({
            let l = layout_for(cols, rows, personal_best);
            &&& 0 <= cols - (l.graph_x + l.graph_width) - l.graph_x <= 1
            &&& l.left_x >= CONTENT_PAD_LEFT
            &&& l.graph_y >= 1 + GRAPH_PAD_Y
        }),
{
}

/// Where the results screen puts its parts on `cols` columns and `rows` rows;
/// see `layout_for`.
pub fn results_layout(cols: u16, rows: u16, personal_best: bool) -> (r: ResultsLayout)
    ensures
        r == layout_for(cols, rows, personal_best),
{
    let w = if cols > 30 { cols - 30 } else { 0 };
    let w = if w < 80 { w } else { 80 };
    let graph_width = if w > 30 { w } else { 30 };
    let h = if rows > 18 { rows - 18 } else { 0 };
    let h = if h < 12 { h } else { 12 };
    let graph_height = if h > 6 { h } else { 6 };
    let graph_x = (if cols > graph_width { cols - graph_width } else { 0 }) / 2;
    let lx = if graph_x > GAP + LEFT_WIDTH { graph_x - (GAP + LEFT_WIDTH) } else { 0 };
    let left_x = if lx > CONTENT_PAD_LEFT { lx } else { CONTENT_PAD_LEFT };
    let content_height = graph_height + GRAPH_PAD_Y + 14;
    let gy = if personal_best {
        (if rows > content_height + 1 { rows - (content_height + 1) } else { 0 }) / 2 + 1
    } else {
        (if rows > content_height { rows - content_height } else { 0 }) / 2
    };
    let graph_y = if gy > 1 + GRAPH_PAD_Y { gy } else { 1 + GRAPH_PAD_Y };
    let stats_y = graph_y + graph_height + GRAPH_PAD_Y + 1;
    let leaderboard_y = stats_y + 4;
    let floor = if rows > 4 { rows - 4 } else { 0 };
    ResultsLayout {
        graph_x,
        graph_y,
        graph_width,
        graph_height,
        left_x,
        stats_y,
        col_width: (graph_width + GAP + LEFT_WIDTH) / 4,
        legend_x: graph_x + 2,
        legend_y: graph_y + graph_height,
        banner_y: if graph_y > 1 { graph_y - 1 } else { 0 },
        leaderboard_y,
        show_leaderboard: leaderboard_y + 2 < floor,
        menu_y: if rows > 3 { rows - 3 } else { 0 },
        hint_y: if rows > 1 { rows - 1 } else { 0 },
    }
}

impl ResultsLayout {
    /// Column of the `i`-th of the four bottom statistics.
    pub fn stat_column(&self, i: u16) -> (r: u16)
        requires
            i < 4,
            self.left_x + i * self.col_width <= u16::MAX,
        ensures
            r == self.left_x + i * self.col_width,
    {
        proof {
            assert(i * self.col_width <= 3 * self.col_width) by (nonlinear_arith)
                requires i < 4;
        }
        self.left_x + i * self.col_width
    }
}

/// Column at which text of `len` bytes starts to be centred on `cols` columns;
/// on a terminal narrower than the text, the first column.
pub fn centered_start(cols: u16, len: u16) -> (r: u16)
    ensures
        r == sat_sub((cols / 2) as int, (len / 2) as int),
{
    if cols / 2 >= len / 2 {
        cols / 2 - len / 2
    } else {
        0
    }
}

/// The labels of the menu entries.
pub open spec fn menu_labels(items: Seq<MenuItem>) -> Seq<Seq<char>> {
    Seq::new(items.len(), |i: int| items[i].label@)
}

/// Bytes of UTF-8 of `s`.
pub open spec fn utf8_len(s: Seq<char>) -> int {
    encode_utf8(s).len() as int
}

/// Width of the menu: each label with two brackets or spaces round it and two
/// more columns.
pub open spec fn menu_width(labels: Seq<Seq<char>>) -> int
    decreases labels.len(),
{
    if labels.len() == 0 {
        0
    } else {
        menu_width(labels.drop_last()) + utf8_len(labels.last()) + 4
    }
}

/// Offset of entry `i` from the start of the menu: each entry before it takes
/// its label, two brackets or spaces, and one column between entries.
pub open spec fn menu_offset(labels: Seq<Seq<char>>, i: int) -> int
    decreases i,
{
    if i <= 0 {
        0
    } else {
        menu_offset(labels, i - 1) + utf8_len(labels[i - 1]) + 3
    }
}

/// Column of the first entry of the menu on `cols` columns: centred.
pub open spec fn menu_start(labels: Seq<Seq<char>>, cols: int) -> int {
    sat_sub(cols, menu_width(labels)) / 2
}

proof fn lemma_menu_width(labels: Seq<Seq<char>>, k: int)
    requires
        0 <= k <= labels.len(),
    ensures
        menu_width(labels.take(k)) == menu_offset(labels, k) + k,
        menu_offset(labels, k) >= 3 * k,
    decreases k,
{
    if k > 0 {
        lemma_menu_width(labels, k - 1);
        assert(labels.take(k).drop_last() =~= labels.take(k - 1));
    }
}

proof fn lemma_menu_offset_mono(labels: Seq<Seq<char>>, i: int, j: int)
    requires
        0 <= i <= j <= labels.len(),
    ensures
        menu_offset(labels, i) <= menu_offset(labels, j),
    decreases j - i,
{
    if i < j {
        lemma_menu_offset_mono(labels, i, j - 1);
    }
}

/// The columns at which the menu entries are drawn on `cols` columns; see
/// `menu_start` and `menu_offset`. Where the last entry would reach past the
/// last column a terminal can have, the drawing would overflow, which
/// `requires` rules out.
pub fn menu_columns(items: &[MenuItem], cols: u16) -> (r: Vec<u16>)
    requires
        items@.len() > 0 ==> menu_start(menu_labels(items@), cols as int) + menu_offset(
            menu_labels(items@),
            items@.len() as int,
        ) - 1 <= u16::MAX,
    ensures
        r@.len() == items@.len(),
        forall|i: int|
            0 <= i < r@.len() ==> r@[i] == menu_start(menu_labels(items@), cols as int)
                + menu_offset(menu_labels(items@), i),
{
    let ghost labels = menu_labels(items@);
    let n = items.len();
    let mut xs: Vec<u16> = Vec::new();
    if n == 0 {
        return xs;
    }
    proof {
        lemma_menu_width(labels, n as int);
        assert(labels.take(n as int) =~= labels);
    }
    let mut total: usize = 0;
    let mut k: usize = 0;
    while k < n
        invariant
            n == items@.len(),
            n > 0,
            labels == menu_labels(items@),
            k <= n,
            total == menu_width(labels.take(k as int)),
            menu_width(labels) == menu_offset(labels, n as int) + n,
            menu_offset(labels, n as int) <= u16::MAX + 1,
        decreases n - k,
    {
        proof {
            lemma_menu_width(labels, k as int);
            lemma_menu_width(labels, (k + 1) as int);
            lemma_menu_offset_mono(labels, (k + 1) as int, n as int);
            assert(labels.take((k + 1) as int).drop_last() =~= labels.take(k as int));
            assert(labels[k as int] == items@[k as int].label@);
        }
        let len = items[k].label.as_str().len();
        total = total + len + 4;
        k = k + 1;
    }
    proof {
        assert(labels.take(n as int) =~= labels);
    }
    let start = (if (cols as usize) > total { cols as usize - total } else { 0 }) / 2;
    let mut cx: u16 = start as u16;
    let mut i: usize = 0;
    while i < n
        invariant
            n == items@.len(),
            labels == menu_labels(items@),
            i <= n,
            start == menu_start(labels, cols as int),
            start + menu_offset(labels, n as int) - 1 <= u16::MAX,
            i < n ==> cx == start + menu_offset(labels, i as int),
            xs@.len() == i,
            forall|j: int| 0 <= j < i ==> xs@[j] == start + menu_offset(labels, j),
        decreases n - i,
    {
        proof {
            lemma_menu_offset_mono(labels, (i + 1) as int, n as int);
            if i + 1 < n {
                lemma_menu_offset_mono(labels, (i + 1) as int, (n - 1) as int);
                assert(menu_offset(labels, n as int) >= menu_offset(labels, (n - 1) as int) + 3);
            }
            assert(labels[i as int] == items@[i as int].label@);
        }
        xs.push(cx);
        let len = items[i].label.as_str().len();
        assert(len == utf8_len(labels[i as int]));
        assert(menu_offset(labels, (i + 1) as int) == menu_offset(labels, i as int) + len + 3);
        assert(len <= u16::MAX);
        if i < n - 1 {
            cx = cx + len as u16 + 3;
        } else {
            cx = cx + len as u16 + 2;
        }
        i = i + 1;
    }
    xs
}

/// Whether score `i` ranks before score `j` on the leaderboard: more words per
/// minute, or as many and recorded earlier.
pub open spec fn ranks_before(wpm: Seq<u32>, i: int, j: int) -> bool {
    wpm[i] > wpm[j] || (wpm[i] == wpm[j] && i < j)
}

/// The leaderboard `r` of the scores with words per minute `wpm`: the best
/// five (or all, where there are fewer), best first.
pub open spec fn is_leaderboard(wpm: Seq<u32>, r: Seq<usize>) -> bool {
    &&& r.len() == if wpm.len() < 5 { wpm.len() } else { 5 }
    &&& forall|k: int| 0 <= k < r.len() ==> r[k] < wpm.len()
    &&& forall|k: int, l: int| 0 <= k < l < r.len() ==> ranks_before(wpm, r[k] as int, r[l] as int)
    &&& forall|j: int, k: int|
        0 <= j < wpm.len() && 0 <= k < r.len() && !r.contains(j as usize) ==> ranks_before(
            wpm,
            r[k] as int,
            j,
        )
}

/// The indices of the scores on the leaderboard: the scores sorted by words per
/// minute, highest first and in their order where equal, cut to five.
pub fn leaderboard_order(wpm: &[u32]) -> (r: Vec<usize>)
    ensures
        is_leaderboard(wpm@, r@),
{
    let n = wpm.len();
    let count: usize = if n < 5 { n } else { 5 };
    let mut remaining: Vec<usize> = Vec::new();
    let mut t: usize = 0;
    while t < n
        invariant
            t <= n,
            remaining@.len() == t,
            forall|q: int| 0 <= q < t ==> remaining@[q] == q,
        decreases n - t,
    {
        remaining.push(t);
        t = t + 1;
    }
    let mut r: Vec<usize> = Vec::new();
    assert forall|j: usize| j < n implies r@.contains(j) || remaining@.contains(j) by {
        assert(remaining@[j as int] == j);
    }
    while r.len() < count
        invariant
            n == wpm@.len(),
            count == if n < 5 { n } else { 5 },
            r@.len() <= count,
            remaining@.len() + r@.len() == n,
            forall|a: int, b: int| 0 <= a < b < remaining@.len() ==> remaining@[a] < remaining@[b],
            forall|q: int| 0 <= q < remaining@.len() ==> remaining@[q] < n,
            forall|k: int| 0 <= k < r@.len() ==> r@[k] < n,
            forall|j: usize| j < n ==> r@.contains(j) || remaining@.contains(j),
            forall|k: int, l: int| 0 <= k < l < r@.len() ==> ranks_before(wpm@, r@[k] as int, r@[l] as int),
            forall|q: int, k: int|
                0 <= q < remaining@.len() && 0 <= k < r@.len() ==> ranks_before(
                    wpm@,
                    r@[k] as int,
                    remaining@[q] as int,
                ),
        decreases count - r@.len(),
    {
        let mut pos: usize = 0;
        let mut q: usize = 1;
        while q < remaining.len()
            invariant
                n == wpm@.len(),
                0 < remaining@.len(),
                pos < q <= remaining@.len(),
                forall|a: int, b: int| 0 <= a < b < remaining@.len() ==> remaining@[a] < remaining@[b],
                forall|m: int| 0 <= m < remaining@.len() ==> remaining@[m] < n,
                forall|m: int|
                    0 <= m < q && m != pos ==> ranks_before(
                        wpm@,
                        remaining@[pos as int] as int,
                        remaining@[m] as int,
                    ),
            decreases remaining@.len() - q,
        {
            let x = remaining[q];
            let b = remaining[pos];
            if wpm[x] > wpm[b] || (wpm[x] == wpm[b] && x < b) {
                pos = q;
            }
            q = q + 1;
        }
        let ghost old_rem = remaining@;
        let ghost old_r = r@;
        let best = remaining.remove(pos);
        r.push(best);
        proof {
            assert(remaining@ == old_rem.remove(pos as int));
            assert forall|q2: int| 0 <= q2 < remaining@.len() implies #[trigger] remaining@[q2]
                == old_rem[if q2 < pos { q2 } else { q2 + 1 }] by {}
            assert forall|a: int, b: int| 0 <= a < b < remaining@.len() implies remaining@[a]
                < remaining@[b] by {
                let oa = if a < pos { a } else { a + 1 };
                let ob = if b < pos { b } else { b + 1 };
                assert(remaining@[a] == old_rem[oa]);
                assert(remaining@[b] == old_rem[ob]);
            }
            assert forall|j: usize| j < n implies r@.contains(j) || remaining@.contains(j) by {
                if old_r.contains(j) {
                    let k = choose|k: int| 0 <= k < old_r.len() && old_r[k] == j;
                    assert(r@[k] == j);
                } else {
                    let q2 = choose|q2: int| 0 <= q2 < old_rem.len() && old_rem[q2] == j;
                    if q2 == pos {
                        assert(r@[r@.len() - 1] == j);
                    } else if q2 < pos {
                        assert(remaining@[q2] == j);
                    } else {
                        assert(remaining@[q2 - 1] == j);
                    }
                }
            }
            assert forall|q2: int, k: int|
                0 <= q2 < remaining@.len() && 0 <= k < r@.len() implies ranks_before(
                wpm@,
                r@[k] as int,
                remaining@[q2] as int,
            ) by {
                let oq = if q2 < pos { q2 } else { q2 + 1 };
                assert(remaining@[q2] == old_rem[oq]);
                if k < old_r.len() {
                    assert(r@[k] == old_r[k]);
                }
            }
            assert forall|k: int, l: int| 0 <= k < l < r@.len() implies ranks_before(
                wpm@,
                r@[k] as int,
                r@[l] as int,
            ) by {
                if l < old_r.len() {
                    assert(r@[k] == old_r[k] && r@[l] == old_r[l]);
                } else {
                    assert(r@[k] == old_r[k]);
                    assert(old_rem[pos as int] == best);
                }
            }
        }
    }
    proof {
        assert forall|j: int, k: int|
            0 <= j < n && 0 <= k < r@.len() && !r@.contains(j as usize) implies ranks_before(
            wpm@,
            r@[k] as int,
            j,
        ) by {
            assert(r@.contains(j as usize) || remaining@.contains(j as usize));
            let q2 = choose|q2: int| 0 <= q2 < remaining@.len() && remaining@[q2] == j as usize;
            assert(ranks_before(wpm@, r@[k] as int, remaining@[q2] as int));
        }
    }
    r
}

/// What a recorded score is compared by: its language, its duration in
/// seconds, and its words per minute.
pub struct ScoreEntry {
    pub language: String,
    pub duration: u64,
    pub wpm: u32,
}

/// The positions, in order, of the scores of `entries` with the given language
/// and duration: the category that a result of that test competes in.
pub open spec fn category_of(entries: Seq<ScoreEntry>, language: Seq<char>, duration: u64) -> Seq<usize>
    decreases entries.len(),
{
    if entries.len() == 0 {
        seq![]
    } else {
        let rest = category_of(entries.drop_last(), language, duration);
        let e = entries.last();
        if e.language@ == language && e.duration == duration {
            rest.push((entries.len() - 1) as usize)
        } else {
            rest
        }
    }
}

/// A result's category holds exactly the scores of the same language and the
/// same duration, by increasing position.
pub proof fn lemma_category_members(entries: Seq<ScoreEntry>, language: Seq<char>, duration: u64)
    requires
        entries.len() <= usize::MAX,
    ensures
        forall|i: usize| #[trigger] category_of(entries, language, duration).contains(i) <==> (
            i < entries.len() && entries[i as int].language@ == language
                && entries[i as int].duration == duration),
        forall|a: int, b: int|
            0 <= a < b < category_of(entries, language, duration).len() ==> category_of(entries, language, duration)[a]
                < category_of(entries, language, duration)[b],
    decreases entries.len(),
{
    let c = category_of(entries, language, duration);
    if entries.len() > 0 {
        let d = entries.drop_last();
        let rest = category_of(d, language, duration);
        lemma_category_members(d, language, duration);
        let last = (entries.len() - 1) as usize;
        assert(last as int == entries.len() - 1);
        let e = entries.last();
        let hit = e.language@ == language && e.duration == duration;
        if hit {
            assert(c == rest.push(last));
        } else {
            assert(c == rest);
        }
        assert forall|i: usize| #[trigger] c.contains(i) <==> (
            i < entries.len() && entries[i as int].language@ == language && entries[i as int].duration == duration) by {
            if i < last {
                assert(d[i as int] == entries[i as int]);
            }
            if c.contains(i) {
                let k = choose|k: int| 0 <= k < c.len() && c[k] == i;
                if k < rest.len() {
                    assert(rest[k] == i);
                    assert(rest.contains(i));
                } else {
                    assert(hit && i == last);
                }
            }
            if i < entries.len() && entries[i as int].language@ == language && entries[i as int].duration == duration {
                if i == last {
                    assert(entries[last as int] == e);
                    assert(hit);
                    assert(c[c.len() - 1] == i);
                } else {
                    assert(rest.contains(i));
                    let k = choose|k: int| 0 <= k < rest.len() && rest[k] == i;
                    assert(c[k] == i);
                }
            }
        }
        assert forall|a: int, b: int| 0 <= a < b < c.len() implies c[a] < c[b] by {
            if b < rest.len() {
                assert(c[a] == rest[a] && c[b] == rest[b]);
            } else {
                assert(hit);
                assert(c[b] == last);
                assert(c[a] == rest[a]);
                assert(rest.contains(rest[a]));
                assert(rest[a] < d.len());
            }
        }
    }
}

/// The positions of the scores of the same language and duration; see
/// `category_of`.
pub fn category_indices(entries: &[ScoreEntry], language: &str, duration: u64) -> (r: Vec<usize>)
    ensures
        r@ == category_of(entries@, language@, duration),
{
    let mut r: Vec<usize> = Vec::new();
    let mut i: usize = 0;
    while i < entries.len()
        invariant
            i <= entries@.len(),
            r@ == category_of(entries@.take(i as int), language@, duration),
        decreases entries@.len() - i,
    {
        proof {
            assert(entries@.take((i + 1) as int).drop_last() =~= entries@.take(i as int));
        }
        if entries[i].duration == duration && str_equals(entries[i].language.as_str(), language) {
            r.push(i);
        }
        i = i + 1;
    }
    proof {
        assert(entries@.take(entries@.len() as int) =~= entries@);
    }
    r
}

/// How a result compares with the best earlier result of its category (its
/// language and duration): better, as many words per minute, or worse.
#[derive(Debug, Clone, Copy, PartialEq, Eq, Structural)]
pub enum Record {
    New,
    Tied,
    Behind,
}

/// The most words per minute among `wpm`, or zero.
pub open spec fn best_wpm(wpm: Seq<u32>) -> u32
    decreases wpm.len(),
{
    if wpm.len() == 0 {
        0
    } else {
        let rest = best_wpm(wpm.drop_last());
        if wpm.last() > rest { wpm.last() } else { rest }
    }
}

/// The best of `wpm` is one of them and no smaller than any.
proof fn lemma_best_wpm(wpm: Seq<u32>)
    ensures
        forall|i: int| 0 <= i < wpm.len() ==> wpm[i] <= best_wpm(wpm),
        wpm.len() > 0 ==> exists|i: int| 0 <= i < wpm.len() && wpm[i] == best_wpm(wpm),
    decreases wpm.len(),
{
    if wpm.len() > 0 {
        lemma_best_wpm(wpm.drop_last());
        assert forall|i: int| 0 <= i < wpm.len() implies wpm[i] <= best_wpm(wpm) by {
            if i < wpm.len() - 1 {
                assert(wpm.drop_last()[i] == wpm[i]);
            }
        }
        if wpm.last() <= best_wpm(wpm.drop_last()) && wpm.len() > 1 {
            let i = choose|i: int| 0 <= i < wpm.len() - 1 && wpm.drop_last()[i] == best_wpm(wpm.drop_last());
            assert(wpm[i] == best_wpm(wpm));
        } else {
            assert(wpm[wpm.len() - 1] == best_wpm(wpm));
        }
    }
}

/// How `current` words per minute compare with the results `wpm` of the same
/// category: a record where there is none or all are slower, tied with the
/// fastest, or behind it.
pub open spec fn record_for(current: u32, wpm: Seq<u32>) -> Record {
    if wpm.len() == 0 || current > best_wpm(wpm) {
        Record::New
    } else if current == best_wpm(wpm) {
        Record::Tied
    } else {
        Record::Behind
    }
}

/// A result is a record exactly when it is faster than every earlier result of
/// its category, and tied exactly when it is as fast as the fastest of them.
pub proof fn lemma_record_beats_all(current: u32, wpm: Seq<u32>)
    ensures
        (record_for(current, wpm) == Record::New) <==> (forall|i: int| 0 <= i < wpm.len() ==> wpm[i] < current),
        (record_for(current, wpm) == Record::Tied) <==> {
            &&& exists|i: int| 0 <= i < wpm.len() && wpm[i] == current
            &&& forall|i: int| 0 <= i < wpm.len() ==> wpm[i] <= current
        },
{
    lemma_best_wpm(wpm);
    if wpm.len() > 0 {
        let k = choose|i: int| 0 <= i < wpm.len() && wpm[i] == best_wpm(wpm);
        assert(wpm[k] == best_wpm(wpm));
    }
}

/// How a result of `current` words per minute compares with the earlier
/// results `wpm` of its category; see `record_for`.
pub fn compare_to_best(current: u32, wpm: &[u32]) -> (r: Record)
    ensures
        r == record_for(current, wpm@),
{
    if wpm.len() == 0 {
        return Record::New;
    }
    let mut best: u32 = 0;
    let mut i: usize = 0;
    while i < wpm.len()
        invariant
            i <= wpm@.len(),
            best == best_wpm(wpm@.take(i as int)),
        decreases wpm@.len() - i,
    {
        proof {
            assert(wpm@.take((i + 1) as int).drop_last() =~= wpm@.take(i as int));
        }
        if wpm[i] > best {
            best = wpm[i];
        }
        i = i + 1;
    }
    proof {
        assert(wpm@.take(wpm@.len() as int) =~= wpm@);
    }
    if current > best {
        Record::New
    } else if current == best {
        Record::Tied
    } else {
        Record::Behind
    }
}

/// How many results the score history keeps.
pub const HISTORY_LENGTH: usize = 10;

/// The last `HISTORY_LENGTH` of `scores`, or all of them.
pub open spec fn most_recent<T>(scores: Seq<T>) -> Seq<T> {
    if scores.len() > HISTORY_LENGTH { scores.skip(scores.len() - HISTORY_LENGTH) } else { scores }
}

/// Adds a result to the history, which keeps the last `HISTORY_LENGTH` only.
pub fn keep_recent<T>(scores: &mut Vec<T>, score: T)
    ensures
        final(scores)@ == most_recent(old(scores)@.push(score)),
{
    let ghost all = old(scores)@.push(score);
    scores.push(score);
    let ghost mut dropped: int = 0;
    while scores.len() > HISTORY_LENGTH
        invariant
            0 <= dropped <= all.len(),
            scores@ == all.skip(dropped),
            scores@.len() < HISTORY_LENGTH ==> dropped == 0,
        decreases scores@.len(),
    {
        scores.remove(0);
        proof {
            dropped = dropped + 1;
            assert(scores@ =~= all.skip(dropped));
        }
    }
    proof {
        assert(all.len() > HISTORY_LENGTH ==> dropped == all.len() - HISTORY_LENGTH);
        assert(all.len() <= HISTORY_LENGTH ==> dropped == 0);
        assert(all.skip(0) =~= all);
    }
}

/// How long ago a score was recorded, `seconds` ago: `just now` within a
/// minute, then in whole minutes, hours or days (`5m ago`, `3h ago`, `2d ago`).
pub open spec fn age_text(seconds: nat) -> Seq<char> {
    if seconds < 60 {
        "just now"@
    } else if seconds < 3600 {
        decimal(seconds / 60) + "m ago"@
    } else if seconds < 86400 {
        decimal(seconds / 3600) + "h ago"@
    } else {
        decimal(seconds / 86400) + "d ago"@
    }
}

/// How long ago a score was recorded; see `age_text`.
pub fn human_age(seconds: u64) -> (r: String)
    ensures
        r@ == age_text(seconds as nat),
{
    let mut v: Vec<char> = Vec::new();
    if seconds < 60 {
        push_chars(&mut v, "just now");
    } else if seconds < 3600 {
        push_decimal(&mut v, seconds / 60);
        push_chars(&mut v, "m ago");
    } else if seconds < 86400 {
        push_decimal(&mut v, seconds / 3600);
        push_chars(&mut v, "h ago");
    } else {
        push_decimal(&mut v, seconds / 86400);
        push_chars(&mut v, "d ago");
    }
    string_from(&v)
}

/// The seconds, counted from zero, in which errors were made.
pub open spec fn error_seconds(errors: Seq<i32>) -> Seq<usize>
    decreases errors.len(),
{
    if errors.len() == 0 {
        seq![]
    } else {
        let rest = error_seconds(errors.drop_last());
        if errors.last() > 0 { rest.push((errors.len() - 1) as usize) } else { rest }
    }
}

/// The seconds in which errors were made, in order; the graph marks them.
pub fn error_marks(errors: &[i32]) -> (r: Vec<usize>)
    ensures
        r@ == error_seconds(errors@),
{
    let mut r: Vec<usize> = Vec::new();
    let mut i: usize = 0;
    while i < errors.len()
        invariant
            i <= errors@.len(),
            r@ == error_seconds(errors@.take(i as int)),
        decreases errors@.len() - i,
    {
        proof {
            assert(errors@.take((i + 1) as int).drop_last() =~= errors@.take(i as int));
        }
        if errors[i] > 0 {
            r.push(i);
        }
        i = i + 1;
    }
    proof {
        assert(errors@.take(errors@.len() as int) =~= errors@);
    }
    r
}

/// A piece of confetti: where it lands, what it looks like, and its colour.
#[derive(Debug, Clone, Copy, PartialEq, Eq, Structural)]
pub struct Confetti {
    pub x: u16,
    pub y: u16,
    pub symbol: char,
    pub color: Color,
}

/// The symbols of the confetti.
pub open spec fn is_confetti_symbol(c: char) -> bool {
    c == '*' || c == '+' || c == '.' || c == 'o' || c == 'x' || c == '#' || c == '~'
}

/// The colours of the confetti.
pub open spec fn is_confetti_color(c: Color) -> bool {
    c == Color::Yellow || c == Color::Red || c == Color::Green || c == Color::Blue
        || c == Color::Magenta || c == Color::Cyan
}

/// How many pieces of confetti frame `frame` adds: more in each frame.
pub open spec fn confetti_count(frame: u16) -> int {
    30 + 15 * frame
}

/// The confetti that frame `frame` throws on `cols` columns and `rows` rows:
/// `30 + 15 * frame` pieces at random places, each of a random symbol and
/// colour. Which places, symbols and colours come is left to chance.
pub fn confetti_frame(cols: u16, rows: u16, frame: u16) -> (r: Vec<Confetti>)
    requires
        cols > 0,
        rows > 0,
        confetti_count(frame) <= u16::MAX,
    ensures
        r@.len() == confetti_count(frame),
        forall|i: int|
            0 <= i < r@.len() ==> {
                &&& (#[trigger] r@[i]).x < cols
                &&& r@[i].y < rows
                &&& is_confetti_symbol(r@[i].symbol)
                &&& is_confetti_color(r@[i].color)
            },
{
    let symbols: [char; 7] = ['*', '+', '.', 'o', 'x', '#', '~'];
    let colors: [Color; 6] = [Color::Yellow, Color::Red, Color::Green, Color::Blue, Color::Magenta, Color::Cyan];
    let mut rng = thread_rng();
    let count: u16 = 30 + frame * 15;
    let mut r: Vec<Confetti> = Vec::new();
    let mut k: u16 = 0;
    while k < count
        invariant
            k <= count,
            count == confetti_count(frame),
            cols > 0,
            rows > 0,
            symbols@ == seq!['*', '+', '.', 'o', 'x', '#', '~'],
            colors@ == seq![Color::Yellow, Color::Red, Color::Green, Color::Blue, Color::Magenta, Color::Cyan],
            r@.len() == k,
            forall|i: int|
                0 <= i < r@.len() ==> {
                    &&& (#[trigger] r@[i]).x < cols
                    &&& r@[i].y < rows
                    &&& is_confetti_symbol(r@[i].symbol)
                    &&& is_confetti_color(r@[i].color)
                },
        decreases count - k,
    {
        let x = random_below(&mut rng, cols as u32) as u16;
        let y = random_below(&mut rng, rows as u32) as u16;
        let symbol = match choose_item(symbols.as_slice(), &mut rng) {
            Some(c) => *c,
            None => '*',
        };
        let color = match choose_item(colors.as_slice(), &mut rng) {
            Some(c) => *c,
            None => Color::Yellow,
        };
        r.push(Confetti { x, y, symbol, color });
        k = k + 1;
    }
    r
}

} // verus!

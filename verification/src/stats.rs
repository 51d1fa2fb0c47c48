//! Keystroke statistics of one test: letters typed per second, errors per
//! second, and the totals that speeds and accuracy are computed from.

use vstd::prelude::*;

verus! {

/// The number of letters that count as one word.
pub const AVERAGE_WORD_LENGTH: i32 = 5;

/// The sum of a sequence of counts.
pub open spec fn sum(s: Seq<i32>) -> int
    decreases s.len(),
{
    if s.len() == 0 {
        0
    } else {
        sum(s.drop_last()) + s.last()
    }
}

/// Closing a second adds the letters typed in it to the letters of the test,
/// and the errors made in it to the errors of the test.
pub proof fn lemma_closing_second_adds_counts(lps: Seq<i32>, errors: Seq<i32>, letters: i32, current_errors: i32)
    ensures
        sum(lps.push(letters)) == sum(lps) + letters,
        sum(errors.push(current_errors)) == sum(errors) + current_errors,
{
    assert(lps.push(letters).drop_last() =~= lps);
    assert(errors.push(current_errors).drop_last() =~= errors);
}

/// Every partial sum of `s`, from the left, fits in an `i32`.
pub open spec fn prefix_sums_fit(s: Seq<i32>) -> bool {
    forall|k: int| 0 <= k <= s.len() ==> i32::MIN <= #[trigger] sum(s.take(k)) <= i32::MAX
}

/// The larger of two integers.
pub open spec fn max_int(a: int, b: int) -> int {
    if a >= b {
        a
    } else {
        b
    }
}

/// Counts of one typing test. `lps[i]` and `errors_ps[i]` are the letters and
/// errors typed during second `i`; the other fields count the whole test, apart
/// from `letter_count` and `current_errors`, which count the running second.
pub struct Stats {
    pub lps: Vec<i32>,
    pub errors_ps: Vec<i32>,
    pub letter_count: i32,
    pub incorrect_letters: i32,
    pub extra_chars: i32,
    pub current_errors: i32,
}

/// The mathematical content of a `Stats`.
pub struct StatsState {
    pub lps: Seq<i32>,
    pub errors_ps: Seq<i32>,
    pub letter_count: int,
    pub incorrect_letters: int,
    pub extra_chars: int,
    pub current_errors: int,
}

impl View for Stats {
    type V = StatsState;

    open spec fn view(&self) -> StatsState {
        StatsState {
            lps: self.lps@,
            errors_ps: self.errors_ps@,
            letter_count: self.letter_count as int,
            incorrect_letters: self.incorrect_letters as int,
            extra_chars: self.extra_chars as int,
            current_errors: self.current_errors as int,
        }
    }
}

impl Stats {
    /// Statistics of a test that has not started.
    pub fn new() -> (s: Self)
        ensures
            s@ == (StatsState {
                lps: seq![],
                errors_ps: seq![],
                letter_count: 0,
                incorrect_letters: 0,
                extra_chars: 0,
                current_errors: 0,
            }),
    {
        Stats {
            lps: Vec::new(),
            errors_ps: Vec::new(),
            letter_count: 0,
            incorrect_letters: 0,
            extra_chars: 0,
            current_errors: 0,
        }
    }

    /// Closes the running second: its letters and errors are recorded, and the
    /// next second starts from zero.
    pub fn add_letters(&mut self)
        ensures
            final(self)@ == (StatsState {
                lps: old(self)@.lps.push(old(self).letter_count),
                errors_ps: old(self)@.errors_ps.push(old(self).current_errors),
                letter_count: 0,
                current_errors: 0,
                ..old(self)@
            }),
    {
        self.lps.push(self.letter_count);
        self.errors_ps.push(self.current_errors);
        self.letter_count = 0;
        self.current_errors = 0;
    }

    /// Counts one error in the running second.
    pub fn add_error(&mut self)
        requires
            old(self).current_errors < i32::MAX,
        ensures
            final(self)@ == (StatsState { current_errors: old(self)@.current_errors + 1, ..old(self)@ }),
    {
        self.current_errors = self.current_errors + 1;
    }

    /// The letters typed in all closed seconds.
    pub fn total_letters(&self) -> (r: i32)
        requires
            prefix_sums_fit(self.lps@),
        ensures
            r == sum(self.lps@),
    {
        let mut total: i32 = 0;
        let mut i: usize = 0;
        while i < self.lps.len()
            invariant
                i <= self.lps.len(),
                prefix_sums_fit(self.lps@),
                total == sum(self.lps@.take(i as int)),
            decreases self.lps.len() - i,
        {
            assert(self.lps@.take(i + 1).drop_last() =~= self.lps@.take(i as int));
            assert(i32::MIN <= sum(self.lps@.take(i + 1)) <= i32::MAX);
            total = total + self.lps[i];
            i = i + 1;
        }
        assert(self.lps@.take(self.lps.len() as int) =~= self.lps@);
        total
    }

    /// The number of closed seconds.
    pub fn total_seconds(&self) -> (r: i32)
        ensures
            r == self.lps@.len() as i32,
    {
        self.lps.len() as i32
    }

    /// The letters typed, less the incorrect ones, and never below zero.
    pub fn correct_chars(&self) -> (r: i32)
        requires
            prefix_sums_fit(self.lps@),
            i32::MIN <= sum(self.lps@) - self.incorrect_letters <= i32::MAX,
        ensures
            r == max_int(sum(self.lps@) - self.incorrect_letters, 0),
    {
        let d = self.total_letters() - self.incorrect_letters;
        if d >= 0 {
            d
        } else {
            0
        }
    }

    /// The incorrect letters that were not typed beyond a word's end, never below zero.
    pub fn incorrect_chars(&self) -> (r: i32)
        requires
            i32::MIN <= self.incorrect_letters - self.extra_chars <= i32::MAX,
        ensures
            r == max_int(self.incorrect_letters - self.extra_chars, 0),
    {
        let d = self.incorrect_letters - self.extra_chars;
        if d >= 0 {
            d
        } else {
            0
        }
    }
}

/// `a / b` rounded toward zero, as integer division in Rust rounds.
pub open spec fn trunc_div(a: int, b: int) -> int {
    if a >= 0 {
        a / b
    } else {
        -((-a) / b)
    }
}

/// The sum of the counts of seconds `lo` up to `hi` (excluded); seconds past
/// the end of `s` count none.
pub open spec fn range_sum(s: Seq<i32>, lo: int, hi: int) -> int
    decreases hi - lo,
{
    if hi <= lo {
        0
    } else {
        range_sum(s, lo, hi - 1) + if 0 <= hi - 1 < s.len() { s[hi - 1] as int } else { 0 }
    }
}

/// The first second of the window of `width` seconds that ends with second `i`.
pub open spec fn window_start(i: int, width: int) -> int {
    if i - width + 1 > 0 { i - width + 1 } else { 0 }
}

/// The letters typed in the window of `width` seconds that ends with second `i`.
pub open spec fn window_letters_at(lps: Seq<i32>, i: int, width: int) -> int {
    range_sum(lps, window_start(i, width), i + 1)
}

/// The letters typed in the window of `width` seconds that ends with second
/// `i`, less the errors made in it, never below zero.
pub open spec fn window_net_at(lps: Seq<i32>, errors: Seq<i32>, i: int, width: int) -> int {
    max_int(range_sum(lps, window_start(i, width), i + 1) - range_sum(errors, window_start(i, width), i + 1), 0)
}

/// A sum of `hi - lo` counts is no further from zero than that many times the
/// largest count.
proof fn lemma_range_sum_bound(s: Seq<i32>, lo: int, hi: int)
    requires
        lo <= hi,
    ensures
        -0x8000_0000 * (hi - lo) <= range_sum(s, lo, hi) <= 0x8000_0000 * (hi - lo),
    decreases hi - lo,
{
    if hi > lo {
        lemma_range_sum_bound(s, lo, hi - 1);
    }
}

impl Stats {
    /// The words typed (five letters to a word, rounded toward zero), errors
    /// included.
    pub fn raw_words(&self) -> (r: i32)
        requires
            prefix_sums_fit(self.lps@),
        ensures
            r == trunc_div(sum(self.lps@), AVERAGE_WORD_LENGTH as int),
    {
        self.total_letters() / AVERAGE_WORD_LENGTH
    }

    /// The words of correct letters (five letters to a word, rounded down).
    pub fn net_words(&self) -> (r: i32)
        requires
            prefix_sums_fit(self.lps@),
            i32::MIN <= sum(self.lps@) - self.incorrect_letters <= i32::MAX,
        ensures
            r == max_int(sum(self.lps@) - self.incorrect_letters, 0) / (AVERAGE_WORD_LENGTH as int),
    {
        self.correct_chars() / AVERAGE_WORD_LENGTH
    }

    /// The sum of the counts of `s` from second `lo` to second `hi` (excluded).
    fn sum_range(s: &Vec<i32>, lo: usize, hi: usize) -> (r: i64)
        requires
            lo <= hi,
            hi - lo <= 1_000_000,
        ensures
            r == range_sum(s@, lo as int, hi as int),
    {
        let mut acc: i64 = 0;
        let mut k: usize = lo;
        while k < hi
            invariant
                lo <= k <= hi,
                hi - lo <= 1_000_000,
                acc == range_sum(s@, lo as int, k as int),
            decreases hi - k,
        {
            proof {
                lemma_range_sum_bound(s@, lo as int, k as int);
                assert(0x8000_0000 * (k - lo) <= 0x8000_0000 * 1_000_000) by (nonlinear_arith)
                    requires k - lo <= 1_000_000;
            }
            if k < s.len() {
                acc = acc + s[k] as i64;
            }
            k = k + 1;
        }
        acc
    }

    /// For each closed second, the letters typed in the window of `width`
    /// seconds that ends with it (fewer at the start of the test).
    pub fn window_letters(&self, width: usize) -> (r: Vec<i64>)
        requires
            1 <= width <= 1_000_000,
        ensures
            r@.len() == self.lps@.len(),
            forall|i: int| 0 <= i < r@.len() ==> #[trigger] r@[i] == window_letters_at(self.lps@, i, width as int),
    {
        let mut r: Vec<i64> = Vec::new();
        let mut i: usize = 0;
        while i < self.lps.len()
            invariant
                1 <= width <= 1_000_000,
                i <= self.lps@.len(),
                r@.len() == i,
                forall|k: int| 0 <= k < i ==> #[trigger] r@[k] == window_letters_at(self.lps@, k, width as int),
            decreases self.lps@.len() - i,
        {
            let lo: usize = if i + 1 > width { i + 1 - width } else { 0 };
            r.push(Self::sum_range(&self.lps, lo, i + 1));
            i = i + 1;
        }
        r
    }

    /// For each closed second, the letters typed in the window of `width`
    /// seconds that ends with it, less the errors made in that window, never
    /// below zero.
    pub fn window_net_letters(&self, width: usize) -> (r: Vec<i64>)
        requires
            1 <= width <= 1_000_000,
        ensures
            r@.len() == self.lps@.len(),
            forall|i: int| 0 <= i < r@.len() ==> #[trigger] r@[i] == window_net_at(self.lps@, self.errors_ps@, i, width as int),
    {
        let mut r: Vec<i64> = Vec::new();
        let mut i: usize = 0;
        while i < self.lps.len()
            invariant
                1 <= width <= 1_000_000,
                i <= self.lps@.len(),
                r@.len() == i,
                forall|k: int| 0 <= k < i ==> #[trigger] r@[k] == window_net_at(self.lps@, self.errors_ps@, k, width as int),
            decreases self.lps@.len() - i,
        {
            let lo: usize = if i + 1 > width { i + 1 - width } else { 0 };
            let letters = Self::sum_range(&self.lps, lo, i + 1);
            let errors = Self::sum_range(&self.errors_ps, lo, i + 1);
            proof {
                lemma_range_sum_bound(self.lps@, lo as int, i + 1);
                lemma_range_sum_bound(self.errors_ps@, lo as int, i + 1);
                assert(0x8000_0000 * (i + 1 - lo) <= 0x8000_0000 * 1_000_000) by (nonlinear_arith)
                    requires i + 1 - lo <= 1_000_000;
            }
            let d = letters - errors;
            r.push(if d >= 0 { d } else { 0 });
            i = i + 1;
        }
        r
    }
}

} // verus!

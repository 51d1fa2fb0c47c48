//! Filling lines with random words from a word list.

use vstd::prelude::*;
use crate::rng::{thread_rng, choose_item};

verus! {

/// The number of characters of the words, without separators.
pub open spec fn total_len(words: Seq<Seq<char>>) -> int
    decreases words.len(),
{
    if words.len() == 0 {
        0
    } else {
        total_len(words.drop_last()) + words.last().len()
    }
}

/// The characters of a list of strings, one sequence per string.
pub open spec fn views(words: Seq<String>) -> Seq<Seq<char>> {
    words.map_values(|w: String| w@)
}

/// Every word of the list has at least one character, and no more than
/// `limit` of them.
pub open spec fn word_sizes_within(words: Seq<String>, limit: int) -> bool {
    forall|i: int| 0 <= i < words.len() ==> 1 <= (#[trigger] words[i])@.len() <= limit
}

/// A count of characters is never negative.
pub proof fn lemma_total_len_nonneg(words: Seq<Seq<char>>)
    ensures
        total_len(words) >= 0,
    decreases words.len(),
{
    if words.len() > 0 {
        lemma_total_len_nonneg(words.drop_last());
    }
}

/// The characters counted before the last word stay below the total.
pub proof fn lemma_total_len_prefix(words: Seq<Seq<char>>, k: int)
    requires
        0 <= k <= words.len(),
    ensures
        total_len(words.take(k)) <= total_len(words),
    decreases words.len(),
{
    if k < words.len() {
        assert(words.drop_last().take(k) =~= words.take(k));
        lemma_total_len_prefix(words.drop_last(), k);
    } else {
        assert(words.take(k) =~= words);
    }
}

/// Whether `word` still fits on a line of `lenght` characters after the words
/// already placed on it (separators are not counted).
pub fn check_if_fits(word: &str, fitted_words: &[String], lenght: i32) -> (r: bool)
    requires
        total_len(views(fitted_words@)) + word@.len() <= i32::MAX,
    ensures
        r == (total_len(views(fitted_words@)) + word@.len() <= lenght),
{
    let ghost vs = views(fitted_words@);
    let mut list_length: i32 = 0;
    let mut i: usize = 0;
    while i < fitted_words.len()
        invariant
            vs == views(fitted_words@),
            total_len(vs) + word@.len() <= i32::MAX,
            i <= fitted_words.len(),
            list_length == total_len(vs.take(i as int)),
        decreases fitted_words.len() - i,
    {
        assert(vs.take(i + 1).drop_last() =~= vs.take(i as int));
        proof {
            lemma_total_len_prefix(vs, i + 1);
            lemma_total_len_nonneg(vs.take(i as int));
            lemma_total_len_nonneg(vs);
            assert(vs[i as int] == fitted_words@[i as int]@);
            assert(total_len(vs.take(i + 1)) == total_len(vs.take(i as int)) + vs[i as int].len());
        }
        list_length = list_length + fitted_words[i].as_str().unicode_len() as i32;
        i = i + 1;
    }
    assert(vs.take(fitted_words.len() as int) =~= vs);
    proof {
        lemma_total_len_nonneg(vs);
    }
    list_length = list_length + word.unicode_len() as i32;
    if list_length > lenght {
        return false;
    }
    true
}

/// A word of the list, picked at random.
pub fn random_word(words: &[String]) -> (r: String)
    requires
        words@.len() > 0,
    ensures
        exists|i: int| 0 <= i < words@.len() && r@ == (#[trigger] words@[i])@,
{
    let mut rng = thread_rng();
    match choose_item(words, &mut rng) {
        Some(w) => w.clone(),
        None => {
            assert(false);
            String::new()
        },
    }
}

/// Whether a line of words is full: some word of the list would not fit on it.
pub open spec fn line_full(words: Seq<String>, line: Seq<String>, lenght: int) -> bool {
    exists|i: int| 0 <= i < words.len() && total_len(views(line)) + (#[trigger] words[i])@.len() > lenght
}

/// Random words of the list, drawn until the next one would not fit on a line
/// of `lenght` characters (separators are not counted).
pub fn fill_line(words: &[String], lenght: i32) -> (r: Vec<String>)
    requires
        words@.len() > 0,
        word_sizes_within(words@, i32::MAX - if lenght > 0 { lenght as int } else { 0 }),
    ensures
        r@.len() == 0 || total_len(views(r@)) <= lenght,
        forall|j: int| 0 <= j < r@.len() ==> exists|i: int| 0 <= i < words@.len() && (#[trigger] r@[j])@ == (#[trigger] words@[i])@,
        line_full(words@, r@, lenght as int),
{
    let mut fitted_words: Vec<String> = Vec::new();
    let mut word = random_word(words);
    assert(views(fitted_words@) =~= Seq::<Seq<char>>::empty());
    while check_if_fits(word.as_str(), fitted_words.as_slice(), lenght)
        invariant
            words@.len() > 0,
            word_sizes_within(words@, i32::MAX - if lenght > 0 { lenght as int } else { 0 }),
            fitted_words@.len() == 0 || total_len(views(fitted_words@)) <= lenght,
            0 <= total_len(views(fitted_words@)),
            exists|i: int| 0 <= i < words@.len() && word@ == (#[trigger] words@[i])@,
            forall|j: int| 0 <= j < fitted_words@.len() ==> exists|i: int| 0 <= i < words@.len() && (#[trigger] fitted_words@[j])@ == (#[trigger] words@[i])@,
        decreases (if lenght > 0 { lenght as int } else { 0 }) - total_len(views(fitted_words@)),
    {
        let ghost before = views(fitted_words@);
        fitted_words.push(word.clone());
        assert(views(fitted_words@).drop_last() =~= before);
        word = random_word(words);
    }
    proof {
        let i = choose|i: int| 0 <= i < words@.len() && word@ == (#[trigger] words@[i])@;
        assert(total_len(views(fitted_words@)) + words@[i]@.len() > lenght);
    }
    fitted_words
}

/// Three lines of random words, each filled as `fill_line` fills it.
pub fn get_words(words: &[String], line_length: i32) -> (r: Vec<Vec<String>>)
    requires
        words@.len() > 0,
        word_sizes_within(words@, i32::MAX - if line_length > 0 { line_length as int } else { 0 }),
    ensures
        r@.len() == 3,
        forall|k: int| 0 <= k < 3 ==> (#[trigger] r@[k])@.len() == 0 || total_len(views(r@[k]@)) <= line_length,
        forall|k: int| 0 <= k < 3 ==> line_full(words@, (#[trigger] r@[k])@, line_length as int),
        forall|k: int, j: int|
            0 <= k < 3 && 0 <= j < r@[k]@.len() ==> exists|i: int|
                0 <= i < words@.len() && (#[trigger] r@[k]@[j])@ == (#[trigger] words@[i])@,
{
    let mut lines: Vec<Vec<String>> = Vec::new();
    let mut k: usize = 0;
    while k < 3
        invariant
            k <= 3,
            lines@.len() == k,
            words@.len() > 0,
            word_sizes_within(words@, i32::MAX - if line_length > 0 { line_length as int } else { 0 }),
            forall|j: int| 0 <= j < k ==> (#[trigger] lines@[j])@.len() == 0 || total_len(views(lines@[j]@)) <= line_length,
            forall|j: int| 0 <= j < k ==> line_full(words@, (#[trigger] lines@[j])@, line_length as int),
            forall|j: int, m: int|
                0 <= j < k && 0 <= m < lines@[j]@.len() ==> exists|i: int|
                    0 <= i < words@.len() && (#[trigger] lines@[j]@[m])@ == (#[trigger] words@[i])@,
        decreases 3 - k,
    {
        lines.push(fill_line(words, line_length));
        k = k + 1;
    }
    lines
}

} // verus!

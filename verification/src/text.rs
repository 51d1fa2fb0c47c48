//! Character-level helpers shared by the rest of the library: joining words
//! with spaces, splitting text at whitespace, and moving between `String`s and
//! character vectors.

use vstd::prelude::*;

verus! {

/// Whether `c` has the Unicode `White_Space` property, which is what
/// `char::is_whitespace` tests: the characters of that property in the
/// Unicode Character Database (PropList.txt).
pub open spec fn is_white_space(c: char) -> bool {
    ||| '\u{9}' <= c <= '\u{D}'
    ||| c == ' '
    ||| c == '\u{85}'
    ||| c == '\u{A0}'
    ||| c == '\u{1680}'
    ||| '\u{2000}' <= c <= '\u{200A}'
    ||| c == '\u{2028}'
    ||| c == '\u{2029}'
    ||| c == '\u{202F}'
    ||| c == '\u{205F}'
    ||| c == '\u{3000}'
}

/// Whether `c` has the Unicode `White_Space` property, as
/// `char::is_whitespace` tests it.
pub(crate) fn char_is_whitespace(c: char) -> (r: bool)
    ensures
        r == is_white_space(c),
{
    ('\u{9}' <= c && c <= '\u{D}')
        || c == ' '
        || c == '\u{85}'
        || c == '\u{A0}'
        || c == '\u{1680}'
        || ('\u{2000}' <= c && c <= '\u{200A}')
        || c == '\u{2028}'
        || c == '\u{2029}'
        || c == '\u{202F}'
        || c == '\u{205F}'
        || c == '\u{3000}'
}

/// Calls `String::push`, which appends one character.
#[verifier::external_body]
pub(crate) fn string_push(s: &mut String, c: char)
    ensures
        final(s)@ == old(s)@.push(c),
{
    s.push(c)
}

/// The words of `words` joined by single spaces, as `[&str]::join(" ")` joins them.
pub open spec fn join_words(words: Seq<Seq<char>>) -> Seq<char>
    decreases words.len(),
{
    if words.len() == 0 {
        seq![]
    } else if words.len() == 1 {
        words[0]
    } else {
        join_words(words.drop_last()) + seq![' '] + words.last()
    }
}

/// The number of characters in `words`, counting one separator after each of
/// the first `n` words: the offset at which word `n` starts in their join.
pub open spec fn word_span(words: Seq<Seq<char>>, n: int) -> int
    decreases n,
{
    if n <= 0 {
        0
    } else {
        word_span(words, n - 1) + words[n - 1].len() + 1
    }
}

/// Splitting `s` at whitespace, read left to right: the words finished so far
/// and the word being read.
pub open spec fn split_state(s: Seq<char>) -> (Seq<Seq<char>>, Seq<char>)
    decreases s.len(),
{
    if s.len() == 0 {
        (seq![], seq![])
    } else {
        let (done, cur) = split_state(s.drop_last());
        let c = s.last();
        if is_white_space(c) {
            if cur.len() > 0 {
                (done.push(cur), seq![])
            } else {
                (done, seq![])
            }
        } else {
            (done, cur.push(c))
        }
    }
}

/// The maximal runs of non-whitespace characters of `s`, in order, as
/// `str::split_whitespace` yields them.
pub open spec fn split_ws(s: Seq<char>) -> Seq<Seq<char>> {
    let (done, cur) = split_state(s);
    if cur.len() > 0 {
        done.push(cur)
    } else {
        done
    }
}

/// Joining words never produces fewer characters than they hold.
pub proof fn lemma_join_len(words: Seq<Seq<char>>)
    ensures
        join_words(words).len() == if words.len() == 0 { 0 } else { word_span(words, words.len() as int) - 1 },
    decreases words.len(),
{
    reveal_with_fuel(word_span, 2);
    if words.len() > 1 {
        lemma_join_len(words.drop_last());
        lemma_word_span_prefix(words, words.drop_last(), words.len() - 1);
    }
}

/// `word_span` only looks at the first `n` words.
pub proof fn lemma_word_span_prefix(a: Seq<Seq<char>>, b: Seq<Seq<char>>, n: int)
    requires
        0 <= n <= a.len(),
        n <= b.len(),
        forall|k: int| 0 <= k < n ==> a[k] == b[k],
    ensures
        word_span(a, n) == word_span(b, n),
    decreases n,
{
    if n > 0 {
        lemma_word_span_prefix(a, b, n - 1);
    }
}

/// `word_span` never decreases as more words are counted.
pub proof fn lemma_word_span_mono(words: Seq<Seq<char>>, m: int, n: int)
    requires
        0 <= m <= n,
    ensures
        word_span(words, m) <= word_span(words, n),
        word_span(words, m) + (n - m) <= word_span(words, n),
    decreases n,
{
    if m < n {
        lemma_word_span_mono(words, m, n - 1);
    }
}

/// Splitting never yields more characters, counting one separator per word,
/// than the text held.
pub proof fn lemma_split_state_size(s: Seq<char>)
    ensures
        word_span(split_state(s).0, split_state(s).0.len() as int) + split_state(s).1.len() <= s.len(),
    decreases s.len(),
{
    if s.len() > 0 {
        let (d0, c0) = split_state(s.drop_last());
        lemma_split_state_size(s.drop_last());
        if is_white_space(s.last()) && c0.len() > 0 {
            let d = d0.push(c0);
            lemma_word_span_prefix(d, d0, d0.len() as int);
        }
    }
}

/// The words of a split hold at most one character more, counting one
/// separator per word, than the text did; and there are no more of them than that.
pub proof fn lemma_split_ws_size(s: Seq<char>)
    ensures
        word_span(split_ws(s), split_ws(s).len() as int) <= s.len() + 1,
        split_ws(s).len() <= s.len() + 1,
{
    lemma_split_state_size(s);
    let (d, cur) = split_state(s);
    if cur.len() > 0 {
        lemma_word_span_prefix(d.push(cur), d, d.len() as int);
    }
    lemma_word_span_mono(split_ws(s), 0, split_ws(s).len() as int);
}

/// A word in the sense of `split_ws`: non-empty and free of whitespace.
pub open spec fn is_word(w: Seq<char>) -> bool {
    &&& w.len() > 0
    &&& forall|j: int| 0 <= j < w.len() ==> !is_white_space(#[trigger] w[j])
}

/// Every entry of `words` is a word.
pub open spec fn all_words(words: Seq<Seq<char>>) -> bool {
    forall|i: int| 0 <= i < words.len() ==> #[trigger] is_word(words[i])
}

/// Reading characters that are not whitespace extends the current word.
pub proof fn lemma_split_state_extend(t: Seq<char>, w: Seq<char>)
    requires
        forall|j: int| 0 <= j < w.len() ==> !is_white_space(#[trigger] w[j]),
    ensures
        split_state(t + w) == (split_state(t).0, split_state(t).1 + w),
    decreases w.len(),
{
    if w.len() == 0 {
        assert(t + w =~= t);
        assert(split_state(t).1 + w =~= split_state(t).1);
    } else {
        let w0 = w.drop_last();
        lemma_split_state_extend(t, w0);
        assert((t + w).drop_last() =~= t + w0);
        assert((t + w).last() == w.last());
        assert(split_state(t).1 + w0 + seq![w.last()] =~= split_state(t).1 + w);
        assert((split_state(t).1 + w0).push(w.last()) =~= split_state(t).1 + w);
    }
}

/// Splitting the join of words gives the words back.
pub proof fn lemma_split_state_join(words: Seq<Seq<char>>)
    requires
        all_words(words),
        words.len() > 0,
    ensures
        split_state(join_words(words)) == (words.drop_last(), words.last()),
    decreases words.len(),
{
    if words.len() == 1 {
        assert(is_word(words[0]));
        lemma_split_state_extend(seq![], words[0]);
        assert(seq![] + words[0] =~= words[0]);
        assert(words.drop_last() =~= seq![]);
        assert(split_state(seq![]).1 + words[0] =~= words[0]);
    } else {
        let w0 = words.drop_last();
        assert(is_word(words.last()));
        assert forall|i: int| 0 <= i < w0.len() implies #[trigger] is_word(w0[i]) by {
            assert(is_word(words[i]));
        }
        lemma_split_state_join(w0);
        let t = join_words(w0) + seq![' '];
        assert(t.drop_last() =~= join_words(w0));
        assert(is_word(w0.last()));
        assert(w0.drop_last().push(w0.last()) =~= w0);
        assert(split_state(t) == (w0, Seq::<char>::empty()));
        lemma_split_state_extend(t, words.last());
        assert(Seq::<char>::empty() + words.last() =~= words.last());
    }
}

/// Splitting the join of words gives the words back.
pub proof fn lemma_split_join(words: Seq<Seq<char>>)
    requires
        all_words(words),
    ensures
        split_ws(join_words(words)) == words,
{
    if words.len() > 0 {
        lemma_split_state_join(words);
        assert(is_word(words.last()));
        assert(words.drop_last().push(words.last()) =~= words);
    }
}

/// The join of words, cut at the space after the first `m` of them.
pub proof fn lemma_join_split_at(words: Seq<Seq<char>>, m: int)
    requires
        0 < m < words.len(),
    ensures
        join_words(words) == join_words(words.take(m)) + seq![' '] + join_words(words.skip(m)),
    decreases words.len(),
{
    let n = words.len() as int;
    if m == n - 1 {
        assert(words.take(m) =~= words.drop_last());
        assert(words.skip(m) =~= seq![words.last()]);
    } else {
        let w0 = words.drop_last();
        lemma_join_split_at(w0, m);
        assert(w0.take(m) =~= words.take(m));
        assert(words.skip(m).drop_last() =~= w0.skip(m));
        assert(words.skip(m).last() == words.last());
    }
}

/// Appending a character to the last word appends it to the join.
pub proof fn lemma_join_extend_last(words: Seq<Seq<char>>, c: char)
    requires
        words.len() > 0,
    ensures
        join_words(words.update(words.len() - 1, words.last().push(c))) == join_words(words).push(c),
{
    let w2 = words.update(words.len() - 1, words.last().push(c));
    assert(w2.drop_last() =~= words.drop_last());
}

/// Replacing a word by one no longer never increases `word_span`.
pub proof fn lemma_word_span_update(words: Seq<Seq<char>>, i: int, w: Seq<char>, n: int)
    requires
        0 <= i < words.len(),
        0 <= n <= words.len(),
    ensures
        word_span(words.update(i, w), n) == word_span(words, n) + if i < n { w.len() - words[i].len() } else { 0 },
    decreases n,
{
    if n > 0 {
        lemma_word_span_update(words, i, w, n - 1);
    }
}

/// The decimal digit for a value below ten.
pub open spec fn digit_char(d: int) -> char {
    if d == 0 {
        '0'
    } else if d == 1 {
        '1'
    } else if d == 2 {
        '2'
    } else if d == 3 {
        '3'
    } else if d == 4 {
        '4'
    } else if d == 5 {
        '5'
    } else if d == 6 {
        '6'
    } else if d == 7 {
        '7'
    } else if d == 8 {
        '8'
    } else {
        '9'
    }
}

/// The value of an ASCII digit (zero for any other character).
pub open spec fn digit_value(c: char) -> int {
    if c == '1' {
        1
    } else if c == '2' {
        2
    } else if c == '3' {
        3
    } else if c == '4' {
        4
    } else if c == '5' {
        5
    } else if c == '6' {
        6
    } else if c == '7' {
        7
    } else if c == '8' {
        8
    } else if c == '9' {
        9
    } else {
        0
    }
}

/// The number that a string of decimal digits writes.
pub open spec fn decimal_value(s: Seq<char>) -> int
    decreases s.len(),
{
    if s.len() == 0 {
        0
    } else {
        decimal_value(s.drop_last()) * 10 + digit_value(s.last())
    }
}

/// Reading the decimal notation of `n` gives `n` back, so two numbers with the
/// same notation are equal.
pub proof fn lemma_decimal_value(n: nat)
    ensures
        decimal_value(decimal(n)) == n,
    decreases n,
{
    let d = (n % 10) as int;
    assert(digit_value(digit_char(d)) == d);
    if n >= 10 {
        lemma_decimal_value(n / 10);
        let s = decimal(n);
        assert(s == decimal(n / 10).push(digit_char(d)));
        assert(s.drop_last() =~= decimal(n / 10));
        assert(s.last() == digit_char(d));
        assert(decimal_value(s) == decimal_value(s.drop_last()) * 10 + digit_value(s.last()));
        assert(decimal_value(s) == (n / 10) * 10 + d);
        assert((n / 10) * 10 + d == n);
    } else {
        let s = decimal(n);
        assert(s == seq![digit_char(d)]);
        assert(s.drop_last() =~= Seq::<char>::empty());
        assert(decimal_value(Seq::<char>::empty()) == 0);
        assert(decimal_value(s) == decimal_value(s.drop_last()) * 10 + digit_value(s.last()));
    }
}

/// Whether `c` is one of the ASCII digits.
pub open spec fn is_digit(c: char) -> bool {
    '0' <= c <= '9'
}

/// The decimal notation of `n`, without leading zeros, as `to_string` writes it.
pub open spec fn decimal(n: nat) -> Seq<char>
    decreases n,
{
    if n < 10 {
        seq![digit_char(n as int)]
    } else {
        decimal(n / 10).push(digit_char((n % 10) as int))
    }
}

/// Decimal notation uses digits only, one more for each power of ten.
pub proof fn lemma_decimal_shape(n: nat)
    ensures
        forall|j: int| 0 <= j < decimal(n).len() ==> is_digit(#[trigger] decimal(n)[j]),
        decimal(n).len() >= 1,
        n < 10 ==> decimal(n).len() == 1,
        n < 100 ==> decimal(n).len() <= 2,
        n < 1000 ==> decimal(n).len() <= 3,
    decreases n,
{
    if n >= 10 {
        lemma_decimal_shape(n / 10);
    }
}

/// The digit for a value below ten.
fn digit_of(d: u64) -> (c: char)
    requires
        d < 10,
    ensures
        c == digit_char(d as int),
{
    match d {
        0 => '0',
        1 => '1',
        2 => '2',
        3 => '3',
        4 => '4',
        5 => '5',
        6 => '6',
        7 => '7',
        8 => '8',
        _ => '9',
    }
}

/// Appends the decimal notation of `n`.
pub fn push_decimal(out: &mut Vec<char>, n: u64)
    ensures
        final(out)@ == old(out)@ + decimal(n as nat),
    decreases n,
{
    if n >= 10 {
        push_decimal(out, n / 10);
    }
    out.push(digit_of(n % 10));
}

/// The decimal notation of `n`.
pub fn decimal_string(n: u32) -> (r: String)
    ensures
        r@ == decimal(n as nat),
{
    let mut v: Vec<char> = Vec::new();
    push_decimal(&mut v, n as u64);
    assert(v@ =~= decimal(n as nat));
    string_from(&v)
}

/// Compares two string slices character by character.
pub fn str_equals(a: &str, b: &str) -> (r: bool)
    ensures
        r == (a@ == b@),
{
    let n = a.unicode_len();
    if n != b.unicode_len() {
        return false;
    }
    let mut i: usize = 0;
    while i < n
        invariant
            n == a@.len(),
            n == b@.len(),
            i <= n,
            forall|j: int| 0 <= j < i ==> a@[j] == b@[j],
        decreases n - i,
    {
        if a.get_char(i) != b.get_char(i) {
            return false;
        }
        i = i + 1;
    }
    assert(a@ =~= b@);
    true
}

/// The characters of a string slice, in a vector.
pub fn chars_of(s: &str) -> (r: Vec<char>)
    ensures
        r@ == s@,
{
    let n = s.unicode_len();
    let mut r: Vec<char> = Vec::new();
    let mut i: usize = 0;
    while i < n
        invariant
            n == s@.len(),
            i <= n,
            r@ == s@.take(i as int),
        decreases n - i,
    {
        r.push(s.get_char(i));
        assert(s@.take(i + 1) =~= s@.take(i as int).push(s@[i as int]));
        i = i + 1;
    }
    assert(s@.take(n as int) =~= s@);
    r
}

/// A string that holds the given characters.
pub fn string_from(cs: &Vec<char>) -> (r: String)
    ensures
        r@ == cs@,
{
    let mut r = String::new();
    let mut i: usize = 0;
    while i < cs.len()
        invariant
            i <= cs.len(),
            r@ == cs@.take(i as int),
        decreases cs.len() - i,
    {
        string_push(&mut r, cs[i]);
        assert(cs@.take(i + 1) =~= cs@.take(i as int).push(cs@[i as int]));
        i = i + 1;
    }
    assert(cs@.take(cs.len() as int) =~= cs@);
    r
}

/// Appends the characters of `s` to `out`.
pub fn push_chars(out: &mut Vec<char>, s: &str)
    ensures
        final(out)@ == old(out)@ + s@,
{
    let n = s.unicode_len();
    let mut i: usize = 0;
    while i < n
        invariant
            n == s@.len(),
            i <= n,
            out@ == old(out)@ + s@.take(i as int),
        decreases n - i,
    {
        out.push(s.get_char(i));
        assert(s@.take(i + 1) =~= s@.take(i as int).push(s@[i as int]));
        i = i + 1;
    }
    assert(s@.take(n as int) =~= s@);
}

/// The words joined by single spaces, as characters.
pub fn join_chars(words: &Vec<String>) -> (r: Vec<char>)
    ensures
        r@ == join_words(words.deep_view()),
{
    let ghost dv = words.deep_view();
    let mut r: Vec<char> = Vec::new();
    let mut i: usize = 0;
    while i < words.len()
        invariant
            dv == words.deep_view(),
            i <= words.len(),
            r@ == join_words(dv.take(i as int)),
        decreases words.len() - i,
    {
        if i > 0 {
            r.push(' ');
        }
        push_chars(&mut r, words[i].as_str());
        assert(dv.take(i + 1).drop_last() =~= dv.take(i as int));
        i = i + 1;
    }
    assert(dv.take(words.len() as int) =~= dv);
    r
}

/// The words joined by single spaces.
pub fn join_string(words: &Vec<String>) -> (r: String)
    ensures
        r@ == join_words(words.deep_view()),
{
    let cs = join_chars(words);
    string_from(&cs)
}

/// The maximal runs of non-whitespace characters of `s`, each as a string.
pub fn split_whitespace(s: &Vec<char>) -> (r: Vec<String>)
    ensures
        r.deep_view() == split_ws(s@),
{
    let mut done: Vec<String> = Vec::new();
    let mut cur: Vec<char> = Vec::new();
    let mut i: usize = 0;
    while i < s.len()
        invariant
            i <= s.len(),
            (done.deep_view(), cur@) == split_state(s@.take(i as int)),
        decreases s.len() - i,
    {
        let c = s[i];
        assert(s@.take(i + 1).drop_last() =~= s@.take(i as int));
        if char_is_whitespace(c) {
            if cur.len() > 0 {
                let w = string_from(&cur);
                done.push(w);
                cur = Vec::new();
            }
        } else {
            cur.push(c);
        }
        assert(done.deep_view() =~= split_state(s@.take(i + 1)).0);
        i = i + 1;
    }
    assert(s@.take(s.len() as int) =~= s@);
    if cur.len() > 0 {
        let w = string_from(&cur);
        done.push(w);
    }
    assert(done.deep_view() =~= split_ws(s@));
    done
}

} // verus!

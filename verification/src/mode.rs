//! Game modes: which modes a test runs with, and how they alter its words.

use vstd::prelude::*;
use rand::rngs::ThreadRng;
use crate::text::{str_equals, chars_of, string_from, string_push, decimal, decimal_string, is_digit, lemma_decimal_shape};
use crate::rng::{thread_rng, random_ratio, random_below};
use crate::config::{ModeSettings, CHANCE_SCALE, comma_pieces, trimmed_pieces};
use crate::game::Game;

verus! {

/// A game mode. `Normal` leaves words as they are; the others make upper-case
/// letters, punctuation or numbers appear.
#[derive(Debug, PartialEq, Eq, Clone, Copy, Structural)]
pub enum ModeType {
    Normal,
    Uppercase,
    Punctuation,
    Numbers,
}

/// Whether `s` names a mode: `normal`, `uppercase`, `punctuation` or `numbers`.
pub open spec fn is_mode_name(s: Seq<char>) -> bool {
    s == "normal"@ || s == "uppercase"@ || s == "punctuation"@ || s == "numbers"@
}

/// The mode that `s` names (`Normal` for a name of no mode).
pub open spec fn named_mode(s: Seq<char>) -> ModeType {
    if s == "uppercase"@ {
        ModeType::Uppercase
    } else if s == "punctuation"@ {
        ModeType::Punctuation
    } else if s == "numbers"@ {
        ModeType::Numbers
    } else {
        ModeType::Normal
    }
}

/// The mode named by `input`, or `None`.
pub fn parse_mode_type(input: &str) -> (r: Option<ModeType>)
    ensures
        r is Some <==> is_mode_name(input@),
        r matches Some(m) ==> m == named_mode(input@),
{
    if str_equals(input, "uppercase") {
        Some(ModeType::Uppercase)
    } else if str_equals(input, "punctuation") {
        Some(ModeType::Punctuation)
    } else if str_equals(input, "numbers") {
        Some(ModeType::Numbers)
    } else if str_equals(input, "normal") {
        Some(ModeType::Normal)
    } else {
        None
    }
}

impl std::str::FromStr for ModeType {
    type Err = ();

    /// The mode named by `input`; any other text is an error.
    fn from_str(input: &str) -> (r: Result<ModeType, Self::Err>)
        ensures
            r is Ok <==> is_mode_name(input@),
            r matches Ok(m) ==> m == named_mode(input@),
    {
        match parse_mode_type(input) {
            Some(m) => Ok(m),
            None => Err(()),
        }
    }
}

/// A mode name that names no mode.
#[derive(Debug)]
pub enum ModeError {
    InvalidMode(String),
}

/// The modes of a test once chosen: the given ones, or the defaults when none
/// is given; and `Normal` alone when `Normal` is among them.
pub open spec fn normalize_modes(given: Seq<ModeType>, defaults: Seq<ModeType>) -> Seq<ModeType> {
    let m = if given.len() == 0 { defaults } else { given };
    if m.contains(ModeType::Normal) {
        seq![ModeType::Normal]
    } else {
        m
    }
}

/// The modes of a test, how long it lasts in seconds, and the chances with
/// which the modes alter words.
pub struct Mode {
    pub modes: Vec<ModeType>,
    pub duration: u64,
    pub settings: ModeSettings,
}

/// Whether `modes` holds `m`.
fn modes_contain(modes: &Vec<ModeType>, m: ModeType) -> (r: bool)
    ensures
        r == modes@.contains(m),
{
    let mut i: usize = 0;
    while i < modes.len()
        invariant
            i <= modes.len(),
            forall|j: int| 0 <= j < i ==> modes@[j] != m,
        decreases modes.len() - i,
    {
        if modes[i] == m {
            return true;
        }
        i = i + 1;
    }
    false
}

/// A copy of a list of modes.
fn copy_modes(modes: &Vec<ModeType>) -> (r: Vec<ModeType>)
    ensures
        r@ == modes@,
{
    let mut r: Vec<ModeType> = Vec::new();
    let mut i: usize = 0;
    while i < modes.len()
        invariant
            i <= modes.len(),
            r@ == modes@.take(i as int),
        decreases modes.len() - i,
    {
        r.push(modes[i]);
        assert(r@ =~= modes@.take(i + 1));
        i = i + 1;
    }
    assert(modes@.take(modes.len() as int) =~= modes@);
    r
}

/// The mode names that the strings give: each string split at commas, and
/// each piece trimmed, in order.
pub open spec fn mode_names(strs: Seq<Seq<char>>) -> Seq<Seq<char>>
    decreases strs.len(),
{
    if strs.len() == 0 {
        seq![]
    } else {
        mode_names(strs.drop_last()) + trimmed_pieces(strs.last())
    }
}

/// The texts of a list of string slices.
pub open spec fn str_views(strs: Seq<&str>) -> Seq<Seq<char>> {
    strs.map_values(|s: &str| s@)
}

impl Mode {
    /// The modes named by `mode_strs`, each of which may join several names
    /// with commas (`"uppercase,punctuation"`); the names are trimmed. An
    /// unknown name is an error, reported with the first such name. With no
    /// name the defaults of `settings` are taken; `normal` among the names (or
    /// defaults) leaves `Normal` alone. The duration starts at zero.
    pub fn from_str(mode_strs: Vec<&str>, settings: ModeSettings) -> (r: Result<Self, ModeError>)
        ensures
            ({
                let names = mode_names(str_views(mode_strs@));
                match r {
                    Ok(m) => {
                        &&& forall|i: int| 0 <= i < names.len() ==> is_mode_name(#[trigger] names[i])
                        &&& m.modes@ == normalize_modes(
                            names.map_values(|n: Seq<char>| named_mode(n)),
                            settings.default_modes@,
                        )
                        &&& m.duration == 0
                        &&& m.settings == settings
                    },
                    Err(ModeError::InvalidMode(name)) => exists|i: int|
                        0 <= i < names.len() && !is_mode_name(#[trigger] names[i]) && name@ == names[i]
                            && forall|j: int| 0 <= j < i ==> is_mode_name(#[trigger] names[j]),
                }
            }),
    {
        let ghost strs = str_views(mode_strs@);
        let mut names: Vec<String> = Vec::new();
        let mut k: usize = 0;
        while k < mode_strs.len()
            invariant
                k <= mode_strs.len(),
                strs == str_views(mode_strs@),
                names.deep_view() == mode_names(strs.take(k as int)),
            decreases mode_strs.len() - k,
        {
            let pieces = comma_pieces(mode_strs[k]);
            let ghost before = names.deep_view();
            let mut p: usize = 0;
            while p < pieces.len()
                invariant
                    p <= pieces.len(),
                    names.deep_view() == before + pieces.deep_view().take(p as int),
                decreases pieces.len() - p,
            {
                let w = pieces[p].clone();
                assert(w@ == pieces.deep_view()[p as int]);
                let ghost prev = names.deep_view();
                names.push(w);
                assert(names.deep_view() =~= prev.push(w@));
                assert(names.deep_view() =~= before + pieces.deep_view().take(p + 1));
                p = p + 1;
            }
            assert(strs.take(k + 1).drop_last() =~= strs.take(k as int));
            assert(pieces.deep_view().take(pieces.len() as int) =~= pieces.deep_view());
            k = k + 1;
        }
        assert(strs.take(mode_strs.len() as int) =~= strs);
        let ghost all = names.deep_view();
        let ghost given = all.map_values(|n: Seq<char>| named_mode(n));
        let mut modes: Vec<ModeType> = Vec::new();
        let mut i: usize = 0;
        while i < names.len()
            invariant
                i <= names.len(),
                all == names.deep_view(),
                all == mode_names(str_views(mode_strs@)),
                given == all.map_values(|n: Seq<char>| named_mode(n)),
                forall|j: int| 0 <= j < i ==> is_mode_name(#[trigger] all[j]),
                modes@ == given.take(i as int),
            decreases names.len() - i,
        {
            match parse_mode_type(names[i].as_str()) {
                Some(m) => {
                    modes.push(m);
                    assert(modes@ =~= given.take(i + 1));
                },
                None => {
                    let name = names[i].clone();
                    assert(name@ == all[i as int]);
                    assert(!is_mode_name(all[i as int]));
                    return Err(ModeError::InvalidMode(name));
                },
            }
            i = i + 1;
        }
        assert(given.take(names.len() as int) =~= given);
        if modes.len() == 0 {
            modes = copy_modes(&settings.default_modes);
        }
        if modes_contain(&modes, ModeType::Normal) {
            modes = Vec::new();
            modes.push(ModeType::Normal);
            assert(modes@ =~= seq![ModeType::Normal]);
        }
        Ok(Mode { modes, duration: 0, settings })
    }

    /// The same modes, lasting `duration` seconds.
    pub fn add_duration(self, duration: u64) -> (r: Self)
        ensures
            r.modes == self.modes,
            r.settings == self.settings,
            r.duration == duration,
    {
        let mut m = self;
        m.duration = duration;
        m
    }
}

/// The mode names of the command line: those given with `--mode`, then
/// `punctuation` when symbols are asked for and `numbers` when numbers are; a
/// `normal` is dropped when more than one name results, so that it does not
/// wipe the others.
pub fn collect_mode_names(given: &Vec<String>, symbols: bool, numbers: bool) -> (r: Vec<String>)
    ensures
        ({
            let all = given.deep_view()
                + (if symbols { seq!["punctuation"@] } else { Seq::<Seq<char>>::empty() })
                + (if numbers { seq!["numbers"@] } else { Seq::<Seq<char>>::empty() });
            r.deep_view() == if all.len() > 1 { all.filter(|n: Seq<char>| n != "normal"@) } else { all }
        }),
{
    let mut all: Vec<String> = Vec::new();
    let mut i: usize = 0;
    while i < given.len()
        invariant
            i <= given.len(),
            all.deep_view() == given.deep_view().take(i as int),
        decreases given.len() - i,
    {
        let ghost before = all.deep_view();
        all.push(given[i].clone());
        assert(all.deep_view() =~= before.push(given.deep_view()[i as int]));
        assert(all.deep_view() =~= given.deep_view().take(i + 1));
        i = i + 1;
    }
    assert(given.deep_view().take(given.len() as int) =~= given.deep_view());
    if symbols {
        let ghost before = all.deep_view();
        all.push(String::from_str("punctuation"));
        assert(all.deep_view() =~= before + seq!["punctuation"@]);
    } else {
        assert(all.deep_view() =~= all.deep_view() + Seq::<Seq<char>>::empty());
    }
    if numbers {
        let ghost before = all.deep_view();
        all.push(String::from_str("numbers"));
        assert(all.deep_view() =~= before + seq!["numbers"@]);
    } else {
        assert(all.deep_view() =~= all.deep_view() + Seq::<Seq<char>>::empty());
    }
    if all.len() <= 1 {
        return all;
    }
    let ghost whole = all.deep_view();
    let mut kept: Vec<String> = Vec::new();
    let mut k: usize = 0;
    while k < all.len()
        invariant
            k <= all.len(),
            whole == all.deep_view(),
            kept.deep_view() == whole.take(k as int).filter(|n: Seq<char>| n != "normal"@),
        decreases all.len() - k,
    {
        let ghost before = kept.deep_view();
        reveal_with_fuel(Seq::filter, 1);
        assert(whole.take(k + 1).drop_last() =~= whole.take(k as int));
        if !str_equals(all[k].as_str(), "normal") {
            kept.push(all[k].clone());
            assert(kept.deep_view() =~= before.push(whole[k as int]));
        }
        k = k + 1;
    }
    assert(whole.take(all.len() as int) =~= whole);
    kept
}

/// The character that `char::to_uppercase` yields first for `c`.
pub uninterp spec fn char_upper(c: char) -> char;

/// Calls `char::to_uppercase` and takes its first character (the iterator
/// always yields at least one). The result is the name `char_upper(c)`.
#[verifier::external_body]
fn upper_first(c: char) -> (r: char)
    ensures
        r == char_upper(c),
{
    c.to_uppercase().next().unwrap()
}

/// The punctuation marks that the punctuation mode appends.
pub open spec fn is_punctuation(c: char) -> bool {
    c == '.' || c == ',' || c == '!' || c == '?' || c == ';' || c == ':' || c == '-'
}

/// `w2` is `w` with some of its characters made upper-case, each with the
/// given chance: none where the chance is nil, all where it is certain.
pub open spec fn uppercased(w: Seq<char>, w2: Seq<char>, chance: u32) -> bool {
    &&& w2.len() == w.len()
    &&& forall|j: int| 0 <= j < w.len() ==> #[trigger] w2[j] == w[j] || w2[j] == char_upper(w[j])
    &&& chance == 0 ==> w2 == w
    &&& chance == CHANCE_SCALE ==> forall|j: int| 0 <= j < w.len() ==> #[trigger] w2[j] == char_upper(w[j])
}

/// `w2` is `w`, or `w` followed by one punctuation mark, which comes with the
/// given chance: never where it is nil, always where it is certain.
pub open spec fn punctuated(w: Seq<char>, w2: Seq<char>, chance: u32) -> bool {
    &&& {
        ||| w2 == w
        ||| (w2.len() == w.len() + 1 && w2.drop_last() == w && is_punctuation(w2.last()))
    }
    &&& chance == 0 ==> w2 == w
    &&& chance == CHANCE_SCALE ==> w2.len() == w.len() + 1
}

/// How many digits a number that replaces `w` may have: its length, between
/// one and three.
pub open spec fn digits_for(w: Seq<char>) -> nat {
    if w.len() <= 1 {
        1
    } else if w.len() >= 3 {
        3
    } else {
        w.len()
    }
}

/// Ten to the power `d`, for `d` from one to three.
pub open spec fn pow10(d: nat) -> nat {
    if d == 1 {
        10
    } else if d == 2 {
        100
    } else {
        1000
    }
}

/// A number with at most `digits_for(w)` digits.
pub open spec fn is_number_for(w: Seq<char>, w2: Seq<char>) -> bool {
    exists|n: nat| n < pow10(digits_for(w)) && w2 == #[trigger] decimal(n)
}

/// `w2` is `w`, or a number with at most `digits_for(w)` digits, which comes
/// with the given chance: never where it is nil, always where it is certain.
pub open spec fn numbered(w: Seq<char>, w2: Seq<char>, chance: u32) -> bool {
    &&& (w2 == w || is_number_for(w, w2))
    &&& chance == 0 ==> w2 == w
    &&& chance == CHANCE_SCALE ==> is_number_for(w, w2)
}

/// `line2` is `line` as one mode alters it with the chances of `settings`:
/// letters made upper-case, a punctuation mark after any word but the last, or
/// words replaced by numbers.
pub open spec fn line_altered(mode: ModeType, settings: ModeSettings, line: Seq<Seq<char>>, line2: Seq<Seq<char>>) -> bool {
    &&& line2.len() == line.len()
    &&& match mode {
        ModeType::Normal => line2 == line,
        ModeType::Uppercase => forall|j: int|
            0 <= j < line.len() ==> uppercased(#[trigger] line[j], line2[j], settings.uppercase_chance),
        ModeType::Punctuation => forall|j: int|
            0 <= j < line.len() ==> if line.len() > 1 && j < line.len() - 1 {
                punctuated(#[trigger] line[j], line2[j], settings.punctuation_chance)
            } else {
                line2[j] == line[j]
            },
        ModeType::Numbers => forall|j: int|
            0 <= j < line.len() ==> numbered(#[trigger] line[j], line2[j], settings.numbers_chance),
    }
}

/// Every line of `lines2` is the same line of `lines` as `mode` alters it.
pub open spec fn lines_altered(
    mode: ModeType,
    settings: ModeSettings,
    lines: Seq<Seq<Seq<char>>>,
    lines2: Seq<Seq<Seq<char>>>,
) -> bool {
    &&& lines2.len() == lines.len()
    &&& forall|i: int| 0 <= i < lines.len() ==> line_altered(mode, settings, #[trigger] lines[i], lines2[i])
}

/// `states` lists the lines before each of `modes`, and after the last one:
/// each state is the one before it as that mode alters it.
pub open spec fn alteration_chain(modes: Seq<ModeType>, settings: ModeSettings, states: Seq<Seq<Seq<Seq<char>>>>) -> bool {
    &&& states.len() == modes.len() + 1
    &&& forall|k: int| 0 <= k < modes.len() ==> lines_altered(modes[k], settings, #[trigger] states[k], states[k + 1])
}

/// `after` is `before` altered by each of `modes` in turn, with the chances of
/// `settings`.
pub open spec fn modes_applied(
    modes: Seq<ModeType>,
    settings: ModeSettings,
    before: Seq<Seq<Seq<char>>>,
    after: Seq<Seq<Seq<char>>>,
) -> bool {
    exists|states: Seq<Seq<Seq<Seq<char>>>>|
        #[trigger] alteration_chain(modes, settings, states) && states[0] == before && states.last() == after
}

/// The punctuation marks, in the order in which an index picks them.
pub open spec fn punctuation_marks() -> Seq<char> {
    seq!['.', ',', '!', '?', ';', ':', '-']
}

/// The punctuation mark with index `k`, the last one for any larger index.
fn punctuation_mark(k: u32) -> (c: char)
    ensures
        c == punctuation_marks()[if k < 6 { k as int } else { 6 }],
        is_punctuation(c),
{
    match k {
        0 => '.',
        1 => ',',
        2 => '!',
        3 => '?',
        4 => ';',
        5 => ':',
        _ => '-',
    }
}

/// Makes each letter upper-case with the given chance.
fn uppercase_word(w: &String, chance: u32, rng: &mut ThreadRng) -> (r: String)
    requires
        chance <= CHANCE_SCALE,
    ensures
        uppercased(w@, r@, chance),
{
    let cs = chars_of(w.as_str());
    let mut out = String::new();
    let mut i: usize = 0;
    while i < cs.len()
        invariant
            cs@ == w@,
            chance <= CHANCE_SCALE,
            i <= cs.len(),
            out@.len() == i,
            forall|j: int| 0 <= j < i ==> #[trigger] out@[j] == cs@[j] || out@[j] == char_upper(cs@[j]),
            chance == 0 ==> forall|j: int| 0 <= j < i ==> #[trigger] out@[j] == cs@[j],
            chance == CHANCE_SCALE ==> forall|j: int| 0 <= j < i ==> #[trigger] out@[j] == char_upper(cs@[j]),
        decreases cs.len() - i,
    {
        if random_ratio(rng, chance, CHANCE_SCALE) {
            string_push(&mut out, upper_first(cs[i]));
        } else {
            string_push(&mut out, cs[i]);
        }
        i = i + 1;
    }
    if chance == 0 {
        assert(out@ =~= w@);
    }
    out
}

/// Appends a random punctuation mark with the given chance.
fn punctuate_word(w: &String, chance: u32, rng: &mut ThreadRng) -> (r: String)
    requires
        chance <= CHANCE_SCALE,
    ensures
        punctuated(w@, r@, chance),
{
    let mut out = w.clone();
    if random_ratio(rng, chance, CHANCE_SCALE) {
        let k = random_below(rng, 7);
        string_push(&mut out, punctuation_mark(k));
        assert(out@.drop_last() =~= w@);
    }
    out
}

/// The count of numbers that may replace `w`: ten to the power of its length,
/// which is taken between one and three.
fn number_bound(w: &String) -> (b: u32)
    ensures
        b == pow10(digits_for(w@)),
{
    let len = w.as_str().unicode_len();
    if len <= 1 {
        10
    } else if len >= 3 {
        1000
    } else {
        100
    }
}

/// Replaces the word, with the given chance, by a random number with as many
/// digits as the word has characters, from one to three.
fn number_word(w: &String, chance: u32, rng: &mut ThreadRng) -> (r: String)
    requires
        chance <= CHANCE_SCALE,
    ensures
        numbered(w@, r@, chance),
{
    if random_ratio(rng, chance, CHANCE_SCALE) {
        let bound = number_bound(w);
        let n = random_below(rng, bound);
        let r = decimal_string(n);
        assert(n < pow10(digits_for(w@)) && r@ == decimal(n as nat));
        r
    } else {
        w.clone()
    }
}

/// Alters every line as `mode` does.
fn apply_mode(mode: ModeType, settings: &ModeSettings, list: &mut Vec<Vec<String>>, rng: &mut ThreadRng)
    requires
        settings.chances_valid(),
    ensures
        lines_altered(mode, *settings, old(list).deep_view(), final(list).deep_view()),
{
    let ghost before = list.deep_view();
    let mut out: Vec<Vec<String>> = Vec::new();
    let mut i: usize = 0;
    while i < list.len()
        invariant
            before == list.deep_view(),
            settings.chances_valid(),
            i <= list.len(),
            out.len() == i,
            forall|k: int| 0 <= k < i ==> line_altered(mode, *settings, #[trigger] before[k], out.deep_view()[k]),
        decreases list.len() - i,
    {
        let line = &list[i];
        let ghost l = line.deep_view();
        let n = line.len();
        let mut new_line: Vec<String> = Vec::new();
        let mut j: usize = 0;
        while j < n
            invariant
                l == line.deep_view(),
                n == line.len(),
                settings.chances_valid(),
                j <= n,
                new_line.len() == j,
                forall|k: int| 0 <= k < j ==> match mode {
                    ModeType::Normal => new_line.deep_view()[k] == l[k],
                    ModeType::Uppercase => uppercased(#[trigger] l[k], new_line.deep_view()[k], settings.uppercase_chance),
                    ModeType::Punctuation => if n > 1 && k < n - 1 {
                        punctuated(l[k], new_line.deep_view()[k], settings.punctuation_chance)
                    } else {
                        new_line.deep_view()[k] == l[k]
                    },
                    ModeType::Numbers => numbered(l[k], new_line.deep_view()[k], settings.numbers_chance),
                },
            decreases n - j,
        {
            let w = &line[j];
            let nw = match mode {
                ModeType::Uppercase => uppercase_word(w, settings.uppercase_chance, rng),
                ModeType::Punctuation => {
                    if n > 1 && j < n - 1 {
                        punctuate_word(w, settings.punctuation_chance, rng)
                    } else {
                        w.clone()
                    }
                },
                ModeType::Numbers => number_word(w, settings.numbers_chance, rng),
                ModeType::Normal => w.clone(),
            };
            let ghost prev = new_line.deep_view();
            new_line.push(nw);
            assert(new_line.deep_view() =~= prev.push(nw@));
            j = j + 1;
        }
        proof {
            assert(new_line.deep_view().len() == l.len());
            if mode == ModeType::Normal {
                assert(new_line.deep_view() =~= l);
            }
            assert(line_altered(mode, *settings, l, new_line.deep_view()));
        }
        let ghost prev_out = out.deep_view();
        out.push(new_line);
        assert(out.deep_view() =~= prev_out.push(new_line.deep_view()));
        i = i + 1;
    }
    *list = out;
}

impl Mode {
    /// Alters the words of a test as each mode does, in order. Which letters,
    /// words and marks are picked is random; what holds of every outcome is
    /// stated by `modes_applied`.
    pub fn transform(&self, list: &mut Vec<Vec<String>>)
        requires
            self.settings.chances_valid(),
        ensures
            modes_applied(self.modes@, self.settings, old(list).deep_view(), final(list).deep_view()),
    {
        let mut rng = thread_rng();
        let ghost start = list.deep_view();
        let ghost mut states: Seq<Seq<Seq<Seq<char>>>> = seq![start];
        let mut i: usize = 0;
        while i < self.modes.len()
            invariant
                i <= self.modes.len(),
                self.settings.chances_valid(),
                states.len() == i + 1,
                states[0] == start,
                states.last() == list.deep_view(),
                forall|k: int| 0 <= k < i ==> lines_altered(self.modes@[k], self.settings, #[trigger] states[k], states[k + 1]),
            decreases self.modes.len() - i,
        {
            apply_mode(self.modes[i], &self.settings, list, &mut rng);
            proof {
                states = states.push(list.deep_view());
            }
            i = i + 1;
        }
        assert(alteration_chain(self.modes@, self.settings, states));
    }
}

impl Mode {
    /// A test over `words` as the modes alter them: the lines shown, and the
    /// lines that typing is compared against, are both the altered words, and
    /// the cursor starts at the beginning.
    pub fn new_game(&self, words: Vec<Vec<String>>) -> (g: Game)
        requires
            self.settings.chances_valid(),
        ensures
            modes_applied(self.modes@, self.settings, words.deep_view(), g@.list),
            g@.original == g@.list,
            g@.px == 0 && g@.py == 0 && g@.jump == 0 && g@.swi == 0,
            !g.quit,
    {
        let mut words = words;
        self.transform(&mut words);
        Game::new(words)
    }
}

/// A number that replaces a word is never longer than the word (or than one
/// digit, for an empty word), and is made of digits only.
pub proof fn lemma_numbered_not_longer(w: Seq<char>, w2: Seq<char>, chance: u32)
    requires
        numbered(w, w2, chance),
    ensures
        w2.len() <= if w.len() >= 1 { w.len() } else { 1 },
        w2 != w ==> forall|j: int| 0 <= j < w2.len() ==> is_digit(#[trigger] w2[j]),
{
    if w2 != w {
        assert(is_number_for(w, w2));
        let n = choose|n: nat| n < pow10(digits_for(w)) && w2 == #[trigger] decimal(n);
        lemma_decimal_shape(n);
    }
}

/// Along a chain of alterations, every state has the shape of the first.
proof fn lemma_chain_keeps_shape(modes: Seq<ModeType>, settings: ModeSettings, states: Seq<Seq<Seq<Seq<char>>>>, k: int)
    requires
        alteration_chain(modes, settings, states),
        0 <= k < states.len(),
    ensures
        states[k].len() == states[0].len(),
        forall|i: int| 0 <= i < states[0].len() ==> #[trigger] states[k][i].len() == states[0][i].len(),
    decreases k,
{
    if k > 0 {
        lemma_chain_keeps_shape(modes, settings, states, k - 1);
        assert(lines_altered(modes[k - 1], settings, states[k - 1], states[k]));
        assert forall|i: int| 0 <= i < states[0].len() implies #[trigger] states[k][i].len() == states[0][i].len() by {
            assert(line_altered(modes[k - 1], settings, states[k - 1][i], states[k][i]));
        }
    }
}

/// Altering lines by modes keeps the number of lines and of words in each.
pub proof fn lemma_modes_keep_shape(
    modes: Seq<ModeType>,
    settings: ModeSettings,
    before: Seq<Seq<Seq<char>>>,
    after: Seq<Seq<Seq<char>>>,
)
    requires
        modes_applied(modes, settings, before, after),
    ensures
        after.len() == before.len(),
        forall|i: int| 0 <= i < before.len() ==> #[trigger] after[i].len() == before[i].len(),
{
    let states = choose|states: Seq<Seq<Seq<Seq<char>>>>|
        #[trigger] alteration_chain(modes, settings, states) && states[0] == before && states.last() == after;
    lemma_chain_keeps_shape(modes, settings, states, states.len() - 1);
}

/// Under the numbers mode alone, every word of the result is the word that was
/// there, or a number of digits no longer than that word (or than one digit).
pub proof fn lemma_numbers_mode_not_longer(
    settings: ModeSettings,
    before: Seq<Seq<Seq<char>>>,
    after: Seq<Seq<Seq<char>>>,
    i: int,
    j: int,
)
    requires
        modes_applied(seq![ModeType::Numbers], settings, before, after),
        0 <= i < before.len(),
        0 <= j < before[i].len(),
    ensures
        after[i][j].len() <= if before[i][j].len() >= 1 { before[i][j].len() } else { 1 },
        after[i][j] != before[i][j] ==> forall|k: int| 0 <= k < after[i][j].len() ==> is_digit(#[trigger] after[i][j][k]),
{
    let modes = seq![ModeType::Numbers];
    let states = choose|states: Seq<Seq<Seq<Seq<char>>>>|
        #[trigger] alteration_chain(modes, settings, states) && states[0] == before && states.last() == after;
    assert(lines_altered(modes[0], settings, states[0], states[1]));
    assert(line_altered(ModeType::Numbers, settings, before[i], after[i]));
    assert(numbered(before[i][j], after[i][j], settings.numbers_chance));
    lemma_numbered_not_longer(before[i][j], after[i][j], settings.numbers_chance);
}

} // verus!

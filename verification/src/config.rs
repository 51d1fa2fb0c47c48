//! Settings that come from the configuration file: theme colours, mode
//! defaults and chances, cursor and language.

use vstd::prelude::*;
use vstd::utf8::encode_utf8;
use crate::mode::{ModeType, is_mode_name, named_mode, parse_mode_type};
use crate::text::{is_white_space, char_is_whitespace, chars_of, string_from};

verus! {

/// The scale of a chance: a chance of `CHANCE_SCALE` is certain.
pub const CHANCE_SCALE: u32 = 1_000_000;

/// The default modes of a test, and the chances (out of `CHANCE_SCALE`) with
/// which a letter is made upper-case, a word gets a punctuation mark, and a
/// word is replaced by a number.
pub struct ModeSettings {
    pub default_modes: Vec<ModeType>,
    pub uppercase_chance: u32,
    pub punctuation_chance: u32,
    pub numbers_chance: u32,
}

impl ModeSettings {
    /// Every chance is at most certain.
    pub open spec fn chances_valid(&self) -> bool {
        &&& self.uppercase_chance <= CHANCE_SCALE
        &&& self.punctuation_chance <= CHANCE_SCALE
        &&& self.numbers_chance <= CHANCE_SCALE
    }
}

impl Default for ModeSettings {
    /// The `Normal` mode, and a chance of one in five for each alteration.
    fn default() -> (s: Self)
        ensures
            s.default_modes@ == seq![ModeType::Normal],
            s.uppercase_chance == CHANCE_SCALE / 5,
            s.punctuation_chance == CHANCE_SCALE / 5,
            s.numbers_chance == CHANCE_SCALE / 5,
    {
        let mut m: Vec<ModeType> = Vec::new();
        m.push(ModeType::Normal);
        ModeSettings {
            default_modes: m,
            uppercase_chance: CHANCE_SCALE / 5,
            punctuation_chance: CHANCE_SCALE / 5,
            numbers_chance: CHANCE_SCALE / 5,
        }
    }
}

/// A colour of the theme: one of the terminal's named colours, or RGB.
#[derive(Debug, Clone, Copy, PartialEq, Eq, Structural)]
pub enum Color {
    White,
    Grey,
    DarkGrey,
    Red,
    Yellow,
    Green,
    Blue,
    Magenta,
    Cyan,
    Rgb { r: u8, g: u8, b: u8 },
}

/// The colours of typed text, of text not typed yet, of errors, and of the
/// timer and highlights.
#[derive(Debug, Clone, Copy, PartialEq, Eq, Structural)]
pub struct ThemeColors {
    pub fg: Color,
    pub missing: Color,
    pub error: Color,
    pub accent: Color,
}

/// The `[theme]` table of the configuration file.
pub struct ThemeTable {
    pub fg: Option<String>,
    pub missing: Option<String>,
    pub error: Option<String>,
    pub accent: Option<String>,
}

/// The `[cursor]` table of the configuration file.
pub struct CursorTable {
    pub style: Option<String>,
}

/// The `[modes]` table of the configuration file.
pub struct ModesTable {
    pub default_mode: Option<String>,
    pub uppercase_chance: Option<String>,
    pub punctuation_chance: Option<String>,
    pub numbers_chance: Option<String>,
}

/// The `[language]` table of the configuration file.
pub struct LanguageTable {
    pub lang: Option<String>,
}

/// The `[zoom]` table of the configuration file: shell commands run when a
/// test starts and when the program ends, and how often the first one runs.
pub struct ZoomTable {
    pub enter: Option<String>,
    pub exit: Option<String>,
    pub steps: Option<u32>,
}

/// The configuration file, table by table; a missing table is `None`.
pub struct ConfigToml {
    pub theme: Option<ThemeTable>,
    pub cursor: Option<CursorTable>,
    pub modes: Option<ModesTable>,
    pub language: Option<LanguageTable>,
    pub zoom: Option<ZoomTable>,
}

/// A copy of an optional string.
pub fn clone_opt_string(o: &Option<String>) -> (r: Option<String>)
    ensures
        r == *o,
{
    match o {
        Some(s) => Some(s.clone()),
        None => None,
    }
}

impl Clone for ThemeTable {
    fn clone(&self) -> (r: Self)
        ensures
            r == *self,
    {
        ThemeTable {
            fg: clone_opt_string(&self.fg),
            missing: clone_opt_string(&self.missing),
            error: clone_opt_string(&self.error),
            accent: clone_opt_string(&self.accent),
        }
    }
}

impl Clone for CursorTable {
    fn clone(&self) -> (r: Self)
        ensures
            r == *self,
    {
        CursorTable { style: clone_opt_string(&self.style) }
    }
}

impl Clone for ModesTable {
    fn clone(&self) -> (r: Self)
        ensures
            r == *self,
    {
        ModesTable {
            default_mode: clone_opt_string(&self.default_mode),
            uppercase_chance: clone_opt_string(&self.uppercase_chance),
            punctuation_chance: clone_opt_string(&self.punctuation_chance),
            numbers_chance: clone_opt_string(&self.numbers_chance),
        }
    }
}

impl Clone for LanguageTable {
    fn clone(&self) -> (r: Self)
        ensures
            r == *self,
    {
        LanguageTable { lang: clone_opt_string(&self.lang) }
    }
}

impl Clone for ZoomTable {
    fn clone(&self) -> (r: Self)
        ensures
            r == *self,
    {
        ZoomTable { enter: clone_opt_string(&self.enter), exit: clone_opt_string(&self.exit), steps: self.steps }
    }
}

impl Default for ConfigToml {
    /// A configuration without any table.
    fn default() -> (c: Self)
        ensures
            c.theme is None,
            c.cursor is None,
            c.modes is None,
            c.language is None,
            c.zoom is None,
    {
        ConfigToml { theme: None, cursor: None, modes: None, language: None, zoom: None }
    }
}

impl ConfigToml {
    /// The `[theme]` table.
    pub fn get_theme(&self) -> (r: Option<ThemeTable>)
        ensures
            r == self.theme,
    {
        match &self.theme {
            Some(t) => Some(t.clone()),
            None => None,
        }
    }

    /// The `[cursor]` table.
    pub fn get_cursor(&self) -> (r: Option<CursorTable>)
        ensures
            r == self.cursor,
    {
        match &self.cursor {
            Some(t) => Some(t.clone()),
            None => None,
        }
    }

    /// The `[modes]` table.
    pub fn get_modes(&self) -> (r: Option<ModesTable>)
        ensures
            r == self.modes,
    {
        match &self.modes {
            Some(t) => Some(t.clone()),
            None => None,
        }
    }

    /// The `[language]` table.
    pub fn get_language(&self) -> (r: Option<LanguageTable>)
        ensures
            r == self.language,
    {
        match &self.language {
            Some(t) => Some(t.clone()),
            None => None,
        }
    }

    /// The `[zoom]` table.
    pub fn get_zoom(&self) -> (r: Option<ZoomTable>)
        ensures
            r == self.zoom,
    {
        match &self.zoom {
            Some(t) => Some(t.clone()),
            None => None,
        }
    }
}

/// What the terminal hooks of a `[zoom]` table do: the command run when a test
/// starts, the command run when the program ends, and how many times the first
/// one runs (once where the table does not say).
pub struct ZoomHooks {
    pub enter: Option<String>,
    pub exit: Option<String>,
    pub steps: u32,
}

/// The hooks of the `[zoom]` table; without a table there are none.
pub fn zoom_hooks(zoom: Option<ZoomTable>) -> (r: ZoomHooks)
    ensures
        match zoom {
            Some(z) => r.enter == z.enter && r.exit == z.exit && r.steps == match z.steps {
                Some(n) => n,
                None => 1,
            },
            None => r.enter is None && r.exit is None && r.steps == 1,
        },
{
    match zoom {
        Some(z) => ZoomHooks {
            enter: z.enter,
            exit: z.exit,
            steps: match z.steps {
                Some(n) => n,
                None => 1,
            },
        },
        None => ZoomHooks { enter: None, exit: None, steps: 1 },
    }
}

/// The value of a hexadecimal digit (either case), as an ASCII byte.
pub open spec fn hex_value(b: u8) -> Option<u8> {
    if 48 <= b <= 57 {
        Some((b - 48) as u8)
    } else if 97 <= b <= 102 {
        Some((b - 87) as u8)
    } else if 65 <= b <= 70 {
        Some((b - 55) as u8)
    } else {
        None
    }
}

/// Two bytes read as a base-16 `u8`, as `u8::from_str_radix` reads them: a
/// plus sign and a digit, or two digits.
pub open spec fn hex_pair(b0: u8, b1: u8) -> Option<u8> {
    if b0 == 43 {
        hex_value(b1)
    } else {
        match (hex_value(b0), hex_value(b1)) {
            (Some(h), Some(l)) => Some((16 * h + l) as u8),
            _ => None,
        }
    }
}

/// The colour that the UTF-8 bytes of a `#rrggbb` text stand for: seven bytes,
/// a `#` and three base-16 pairs.
pub open spec fn spec_hex_to_rgb(bytes: Seq<u8>) -> Option<Color> {
    if bytes.len() == 7 && bytes[0] == 35 {
        match (hex_pair(bytes[1], bytes[2]), hex_pair(bytes[3], bytes[4]), hex_pair(bytes[5], bytes[6])) {
            (Some(r), Some(g), Some(b)) => Some(Color::Rgb { r, g, b }),
            _ => None,
        }
    } else {
        None
    }
}

/// A UTF-8 byte that continues a character rather than starting one.
pub open spec fn is_continuation(b: u8) -> bool {
    128 <= b < 192
}

/// The texts on which `hex_to_rgb` is defined: those that are not seven bytes
/// starting with `#`, and those whose pairs start on character boundaries.
pub open spec fn hex_slices_valid(s: Seq<char>) -> bool {
    let bytes = encode_utf8(s);
    (bytes.len() == 7 && bytes[0] == 35) ==> !is_continuation(bytes[3]) && !is_continuation(bytes[5])
}

/// The value of a hexadecimal digit byte.
fn hex_digit(b: u8) -> (r: Option<u8>)
    ensures
        r == hex_value(b),
{
    if 48 <= b && b <= 57 {
        Some(b - 48)
    } else if 97 <= b && b <= 102 {
        Some(b - 87)
    } else if 65 <= b && b <= 70 {
        Some(b - 55)
    } else {
        None
    }
}

/// Two bytes read as a base-16 `u8`.
fn parse_hex_pair(b0: u8, b1: u8) -> (r: Option<u8>)
    ensures
        r == hex_pair(b0, b1),
{
    if b0 == 43 {
        return hex_digit(b1);
    }
    match (hex_digit(b0), hex_digit(b1)) {
        (Some(h), Some(l)) => Some(16 * h + l),
        _ => None,
    }
}

/// The colour of a `#rrggbb` text, or `None` for any other text.
pub fn hex_to_rgb(hex: &str) -> (r: Option<Color>)
    requires
        hex_slices_valid(hex@),
    ensures
        r == spec_hex_to_rgb(encode_utf8(hex@)),
{
    let b = hex.as_bytes();
    if b.len() == 7 && b[0] == 35 {
        let r = parse_hex_pair(b[1], b[2]);
        let g = parse_hex_pair(b[3], b[4]);
        let bl = parse_hex_pair(b[5], b[6]);
        match (r, g, bl) {
            (Some(r), Some(g), Some(bl)) => Some(Color::Rgb { r, g, b: bl }),
            _ => None,
        }
    } else {
        None
    }
}

/// The colour that an optional configured text stands for, or `dflt`.
pub open spec fn color_or(s: Option<String>, dflt: Color) -> Color {
    match s {
        Some(v) => match spec_hex_to_rgb(encode_utf8(v@)) {
            Some(c) => c,
            None => dflt,
        },
        None => dflt,
    }
}

/// Every configured colour of the table is a text on which `hex_to_rgb` is defined.
pub open spec fn theme_table_valid(t: ThemeTable) -> bool {
    &&& (t.fg matches Some(s) ==> hex_slices_valid(s@))
    &&& (t.missing matches Some(s) ==> hex_slices_valid(s@))
    &&& (t.error matches Some(s) ==> hex_slices_valid(s@))
    &&& (t.accent matches Some(s) ==> hex_slices_valid(s@))
}

/// The colour of a configured text, or `dflt`.
fn color_from(s: &Option<String>, dflt: Color) -> (r: Color)
    requires
        s matches Some(v) ==> hex_slices_valid(v@),
    ensures
        r == color_or(*s, dflt),
{
    match s {
        Some(v) => match hex_to_rgb(v.as_str()) {
            Some(c) => c,
            None => dflt,
        },
        None => dflt,
    }
}

impl Default for ThemeColors {
    /// White text, dark grey for what is not typed yet, red errors and a
    /// yellow accent.
    fn default() -> (t: Self)
        ensures
            t == (ThemeColors { fg: Color::White, missing: Color::DarkGrey, error: Color::Red, accent: Color::Yellow }),
    {
        ThemeColors { fg: Color::White, missing: Color::DarkGrey, error: Color::Red, accent: Color::Yellow }
    }
}

impl ThemeColors {
    /// The colours of the `[theme]` table: each configured `#rrggbb` colour,
    /// and the colour of the default theme (white, dark grey, red and yellow)
    /// for each one not configured or not readable; without a table, the
    /// default theme.
    pub fn new(theme: Option<ThemeTable>) -> (t: Self)
        requires
            theme matches Some(tt) ==> theme_table_valid(tt),
        ensures
            match theme {
                Some(tt) => t == (ThemeColors {
                    fg: color_or(tt.fg, Color::White),
                    missing: color_or(tt.missing, Color::DarkGrey),
                    error: color_or(tt.error, Color::Red),
                    accent: color_or(tt.accent, Color::Yellow),
                }),
                None => t == (ThemeColors { fg: Color::White, missing: Color::DarkGrey, error: Color::Red, accent: Color::Yellow }),
            },
    {
        match theme {
            Some(colors) => ThemeColors {
                fg: color_from(&colors.fg, Color::White),
                missing: color_from(&colors.missing, Color::DarkGrey),
                error: color_from(&colors.error, Color::Red),
                accent: color_from(&colors.accent, Color::Yellow),
            },
            None => ThemeColors::default(),
        }
    }
}

/// Splitting at commas, read left to right: the pieces finished so far and
/// the piece being read.
pub open spec fn comma_state(s: Seq<char>) -> (Seq<Seq<char>>, Seq<char>)
    decreases s.len(),
{
    if s.len() == 0 {
        (seq![], seq![])
    } else {
        let (done, cur) = comma_state(s.drop_last());
        if s.last() == ',' {
            (done.push(cur), seq![])
        } else {
            (done, cur.push(s.last()))
        }
    }
}

/// The pieces of `s` between commas, as `str::split(',')` yields them: one
/// more than there are commas, empty ones included.
pub open spec fn split_commas(s: Seq<char>) -> Seq<Seq<char>> {
    comma_state(s).0.push(comma_state(s).1)
}

/// `s` without its leading whitespace.
pub open spec fn trim_start(s: Seq<char>) -> Seq<char>
    decreases s.len(),
{
    if s.len() > 0 && is_white_space(s[0]) {
        trim_start(s.drop_first())
    } else {
        s
    }
}

/// `s` without its trailing whitespace.
pub open spec fn trim_end(s: Seq<char>) -> Seq<char>
    decreases s.len(),
{
    if s.len() > 0 && is_white_space(s.last()) {
        trim_end(s.drop_last())
    } else {
        s
    }
}

/// `s` without leading or trailing whitespace, as `str::trim` leaves it.
pub open spec fn trim(s: Seq<char>) -> Seq<char> {
    trim_end(trim_start(s))
}

/// The modes named by the pieces, each trimmed; pieces that name no mode are
/// skipped.
pub open spec fn pieces_to_modes(pieces: Seq<Seq<char>>) -> Seq<ModeType>
    decreases pieces.len(),
{
    if pieces.len() == 0 {
        seq![]
    } else {
        let rest = pieces_to_modes(pieces.drop_last());
        let name = trim(pieces.last());
        if is_mode_name(name) {
            rest.push(named_mode(name))
        } else {
            rest
        }
    }
}

/// The default modes that a `default_mode` setting such as
/// `"uppercase, punctuation"` names: the comma-separated names, trimmed, that
/// name a mode; `Normal` alone when `normal` is among them.
pub open spec fn spec_parse_default_modes(s: Seq<char>) -> Seq<ModeType> {
    let ms = pieces_to_modes(split_commas(s));
    if ms.contains(ModeType::Normal) {
        seq![ModeType::Normal]
    } else {
        ms
    }
}

/// `p` without leading or trailing whitespace.
fn trim_chars(p: &Vec<char>) -> (r: Vec<char>)
    ensures
        r@ == trim(p@),
{
    let n = p.len();
    let mut i: usize = 0;
    assert(p@.skip(0) =~= p@);
    while i < n && char_is_whitespace(p[i])
        invariant
            n == p.len(),
            i <= n,
            trim_start(p@) == trim_start(p@.skip(i as int)),
        decreases n - i,
    {
        assert(p@.skip(i as int).drop_first() =~= p@.skip(i + 1));
        i = i + 1;
    }
    assert(trim_start(p@.skip(i as int)) == p@.skip(i as int));
    assert(p@.skip(i as int) =~= p@.subrange(i as int, n as int));
    let mut j: usize = n;
    while j > i && char_is_whitespace(p[j - 1])
        invariant
            n == p.len(),
            i <= j <= n,
            trim_end(p@.subrange(i as int, n as int)) == trim_end(p@.subrange(i as int, j as int)),
        decreases j,
    {
        assert(p@.subrange(i as int, j as int).drop_last() =~= p@.subrange(i as int, j - 1));
        j = j - 1;
    }
    assert(trim_end(p@.subrange(i as int, j as int)) == p@.subrange(i as int, j as int));
    let mut r: Vec<char> = Vec::new();
    let mut k: usize = i;
    while k < j
        invariant
            i <= k <= j <= n,
            n == p.len(),
            r@ == p@.subrange(i as int, k as int),
        decreases j - k,
    {
        r.push(p[k]);
        assert(r@ =~= p@.subrange(i as int, k + 1));
        k = k + 1;
    }
    r
}

/// The pieces of `s` between commas, each trimmed.
pub open spec fn trimmed_pieces(s: Seq<char>) -> Seq<Seq<char>> {
    split_commas(s).map_values(|p: Seq<char>| trim(p))
}

/// The pieces of `s` between commas, each trimmed; see `trimmed_pieces`.
pub fn comma_pieces(s: &str) -> (r: Vec<String>)
    ensures
        r.deep_view() == trimmed_pieces(s@),
{
    let cs = chars_of(s);
    let mut pieces: Vec<String> = Vec::new();
    let mut cur: Vec<char> = Vec::new();
    let mut i: usize = 0;
    while i < cs.len()
        invariant
            cs@ == s@,
            i <= cs.len(),
            pieces.deep_view() == comma_state(cs@.take(i as int)).0.map_values(|p: Seq<char>| trim(p)),
            cur@ == comma_state(cs@.take(i as int)).1,
        decreases cs.len() - i,
    {
        assert(cs@.take(i + 1).drop_last() =~= cs@.take(i as int));
        if cs[i] == ',' {
            let ghost done = comma_state(cs@.take(i as int)).0;
            let ghost before = pieces.deep_view();
            let w = string_from(&trim_chars(&cur));
            pieces.push(w);
            assert(pieces.deep_view() =~= before.push(w@));
            assert(done.push(cur@).map_values(|p: Seq<char>| trim(p)) =~= before.push(trim(cur@)));
            cur = Vec::new();
        } else {
            cur.push(cs[i]);
        }
        i = i + 1;
    }
    assert(cs@.take(cs.len() as int) =~= s@);
    let ghost done = comma_state(s@).0;
    let ghost before = pieces.deep_view();
    let w = string_from(&trim_chars(&cur));
    pieces.push(w);
    assert(pieces.deep_view() =~= before.push(w@));
    assert(split_commas(s@).map_values(|p: Seq<char>| trim(p)) =~= before.push(trim(cur@)));
    pieces
}

/// Appends the mode named by a piece, trimmed, if it names one.
fn push_piece_mode(modes: &mut Vec<ModeType>, piece: &Vec<char>)
    ensures
        final(modes)@ == if is_mode_name(trim(piece@)) {
            old(modes)@.push(named_mode(trim(piece@)))
        } else {
            old(modes)@
        },
{
    let name = string_from(&trim_chars(piece));
    if let Some(m) = parse_mode_type(name.as_str()) {
        modes.push(m);
    }
}

/// The default modes named by a `default_mode` setting; see
/// `spec_parse_default_modes`.
pub fn parse_default_modes(s: &str) -> (r: Vec<ModeType>)
    ensures
        r@ == spec_parse_default_modes(s@),
{
    let cs = chars_of(s);
    let mut modes: Vec<ModeType> = Vec::new();
    let mut cur: Vec<char> = Vec::new();
    let mut i: usize = 0;
    while i < cs.len()
        invariant
            cs@ == s@,
            i <= cs.len(),
            modes@ == pieces_to_modes(comma_state(cs@.take(i as int)).0),
            cur@ == comma_state(cs@.take(i as int)).1,
        decreases cs.len() - i,
    {
        assert(cs@.take(i + 1).drop_last() =~= cs@.take(i as int));
        if cs[i] == ',' {
            let ghost done = comma_state(cs@.take(i as int)).0;
            push_piece_mode(&mut modes, &cur);
            assert(done.push(cur@).drop_last() =~= done);
            cur = Vec::new();
        } else {
            cur.push(cs[i]);
        }
        i = i + 1;
    }
    assert(cs@.take(cs.len() as int) =~= s@);
    let ghost done = comma_state(s@).0;
    push_piece_mode(&mut modes, &cur);
    assert(split_commas(s@).drop_last() =~= done);
    let mut has_normal = false;
    let mut k: usize = 0;
    while k < modes.len()
        invariant
            k <= modes.len(),
            has_normal == modes@.take(k as int).contains(ModeType::Normal),
        decreases modes.len() - k,
    {
        let ghost t0 = modes@.take(k as int);
        let ghost t1 = modes@.take(k + 1);
        assert(t1 =~= t0.push(modes@[k as int]));
        if modes[k] == ModeType::Normal {
            has_normal = true;
            assert(t1[k as int] == ModeType::Normal);
        } else {
            proof {
                if t1.contains(ModeType::Normal) {
                    let j = choose|j: int| 0 <= j < t1.len() && t1[j] == ModeType::Normal;
                    assert(t0[j] == ModeType::Normal);
                }
                if t0.contains(ModeType::Normal) {
                    let j = choose|j: int| 0 <= j < t0.len() && t0[j] == ModeType::Normal;
                    assert(t1[j] == ModeType::Normal);
                }
            }
        }
        k = k + 1;
    }
    assert(modes@.take(modes.len() as int) =~= modes@);
    if has_normal {
        let mut only: Vec<ModeType> = Vec::new();
        only.push(ModeType::Normal);
        assert(only@ =~= seq![ModeType::Normal]);
        return only;
    }
    modes
}

} // verus!

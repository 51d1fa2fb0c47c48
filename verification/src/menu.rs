//! The menu of the results screen: what comes after a test.

use vstd::prelude::*;
use crate::game::GhostFrame;
use crate::keyboard::Key;
use crate::text::{decimal, decimal_value, lemma_decimal_value};

verus! {

/// What the program does after a test: quit, start a new test, or repeat the
/// same words against the ghost of the test just played.
#[derive(Debug)]
pub enum PostGameAction {
    Quit,
    Replay { duration: u64, lang: String },
    Repeat { duration: u64, lang: String, words: Vec<Vec<String>>, ghost_frames: Vec<GhostFrame> },
}

/// The mathematical content of a `PostGameAction`.
pub enum ActionView {
    Quit,
    Replay { duration: u64, lang: Seq<char> },
    Repeat { duration: u64, lang: Seq<char>, words: Seq<Seq<Seq<char>>>, ghost_frames: Seq<GhostFrame> },
}

impl DeepView for PostGameAction {
    type V = ActionView;

    open spec fn deep_view(&self) -> ActionView {
        match self {
            PostGameAction::Quit => ActionView::Quit,
            PostGameAction::Replay { duration, lang } => ActionView::Replay { duration: *duration, lang: lang@ },
            PostGameAction::Repeat { duration, lang, words, ghost_frames } => ActionView::Repeat {
                duration: *duration,
                lang: lang@,
                words: words.deep_view(),
                ghost_frames: ghost_frames@,
            },
        }
    }
}

/// An entry of the menu: its label and what choosing it does.
#[derive(Debug)]
pub struct MenuItem {
    pub label: String,
    pub action: PostGameAction,
}

impl DeepView for MenuItem {
    type V = (Seq<char>, ActionView);

    open spec fn deep_view(&self) -> (Seq<char>, ActionView) {
        (self.label@, self.action.deep_view())
    }
}

/// The menu after a test of `duration` seconds in `language`: replay it as
/// it was, replay it for 15, 30, 60 or 120 seconds, replay it in English or in
/// Spanish, or quit.
pub open spec fn spec_menu(duration: u64, language: Seq<char>) -> Seq<(Seq<char>, ActionView)> {
    seq![
        ("replay"@, ActionView::Replay { duration, lang: language }),
        ("15s"@, ActionView::Replay { duration: 15, lang: language }),
        ("30s"@, ActionView::Replay { duration: 30, lang: language }),
        ("60s"@, ActionView::Replay { duration: 60, lang: language }),
        ("120s"@, ActionView::Replay { duration: 120, lang: language }),
        ("english"@, ActionView::Replay { duration, lang: "english"@ }),
        ("spanish"@, ActionView::Replay { duration, lang: "spanish"@ }),
        ("quit"@, ActionView::Quit),
    ]
}

/// Every entry of the menu does what its label says: an entry labelled with a
/// number of seconds (`15s`) replays for that many seconds in the same
/// language; an entry labelled with a language replays in that language for
/// the same duration; `replay` replays as the test was; `quit` quits.
pub proof fn lemma_menu_entries_do_what_they_say(duration: u64, language: Seq<char>, i: int)
    requires
        0 <= i < spec_menu(duration, language).len(),
    ensures
        forall|n: nat|
            spec_menu(duration, language)[i].0 == #[trigger] decimal(n) + seq!['s'] ==> spec_menu(duration, language)[i].1
                == (ActionView::Replay { duration: n as u64, lang: language }),
        (spec_menu(duration, language)[i].0 == "english"@ || spec_menu(duration, language)[i].0 == "spanish"@)
            ==> spec_menu(duration, language)[i].1 == (ActionView::Replay {
            duration,
            lang: spec_menu(duration, language)[i].0,
        }),
        spec_menu(duration, language)[i].0 == "replay"@ ==> spec_menu(duration, language)[i].1 == (ActionView::Replay {
            duration,
            lang: language,
        }),
        spec_menu(duration, language)[i].0 == "quit"@ ==> spec_menu(duration, language)[i].1 == ActionView::Quit,
{
    reveal_strlit("replay");
    reveal_strlit("15s");
    reveal_strlit("30s");
    reveal_strlit("60s");
    reveal_strlit("120s");
    reveal_strlit("english");
    reveal_strlit("spanish");
    reveal_strlit("quit");
    let m = spec_menu(duration, language);
    let label = m[i].0;
    if i < 7 {
        assert(label[0] != "quit"@[0]);
    }
    assert forall|n: nat| label == #[trigger] decimal(n) + seq!['s'] implies m[i].1 == (ActionView::Replay {
        duration: n as u64,
        lang: language,
    }) by {
        lemma_decimal_value(n);
        let d = decimal(n);
        assert(label.last() == 's');
        assert(label.drop_last() =~= d);
        let e = Seq::<char>::empty();
        assert(decimal_value(e) == 0);
        assert(seq!['1'].drop_last() =~= e);
        assert(seq!['3'].drop_last() =~= e);
        assert(seq!['6'].drop_last() =~= e);
        assert(decimal_value(seq!['1']) == 1);
        assert(decimal_value(seq!['3']) == 3);
        assert(decimal_value(seq!['6']) == 6);
        if i == 1 {
            assert(d =~= seq!['1', '5']);
            assert(seq!['1', '5'].drop_last() =~= seq!['1']);
            assert(decimal_value(seq!['1', '5']) == 15);
        } else if i == 2 {
            assert(d =~= seq!['3', '0']);
            assert(seq!['3', '0'].drop_last() =~= seq!['3']);
            assert(decimal_value(seq!['3', '0']) == 30);
        } else if i == 3 {
            assert(d =~= seq!['6', '0']);
            assert(seq!['6', '0'].drop_last() =~= seq!['6']);
            assert(decimal_value(seq!['6', '0']) == 60);
        } else if i == 4 {
            assert(d =~= seq!['1', '2', '0']);
            assert(seq!['1', '2'].drop_last() =~= seq!['1']);
            assert(decimal_value(seq!['1', '2']) == 12);
            assert(seq!['1', '2', '0'].drop_last() =~= seq!['1', '2']);
            assert(decimal_value(seq!['1', '2', '0']) == 120);
        }
    }
}

/// A menu entry that starts a new test.
fn replay_item(label: &str, duration: u64, lang: &str) -> (r: MenuItem)
    ensures
        r.deep_view() == (label@, ActionView::Replay { duration, lang: lang@ }),
{
    MenuItem {
        label: String::from_str(label),
        action: PostGameAction::Replay { duration, lang: String::from_str(lang) },
    }
}

/// The menu of the results screen; see `spec_menu`.
pub fn build_menu(duration: u64, language: &str) -> (r: Vec<MenuItem>)
    ensures
        r.deep_view() == spec_menu(duration, language@),
{
    let mut items: Vec<MenuItem> = Vec::new();
    items.push(replay_item("replay", duration, language));
    items.push(replay_item("15s", 15, language));
    items.push(replay_item("30s", 30, language));
    items.push(replay_item("60s", 60, language));
    items.push(replay_item("120s", 120, language));
    items.push(replay_item("english", duration, "english"));
    items.push(replay_item("spanish", duration, "spanish"));
    items.push(MenuItem { label: String::from_str("quit"), action: PostGameAction::Quit });
    assert(items.deep_view() =~= spec_menu(duration, language@));
    items
}

/// What a key does on the results screen: quit, move the selection, confirm
/// the selected entry, or nothing.
#[derive(Debug, Clone, Copy, PartialEq, Eq, Structural)]
pub enum MenuEvent {
    Quit,
    Select(usize),
    Confirm(usize),
    Ignore,
}

/// What `code` does on a menu of `len` entries with entry `selected` chosen:
/// Escape quits, the arrows move the selection within the menu, Tab and
/// Enter confirm it.
pub fn menu_step(selected: usize, code: Key, len: usize) -> (r: MenuEvent)
    requires
        selected < len,
    ensures
        r == match code {
            Key::Esc => MenuEvent::Quit,
            Key::Left => MenuEvent::Select(if selected > 0 { (selected - 1) as usize } else { selected }),
            Key::Right => MenuEvent::Select(if selected < len - 1 { (selected + 1) as usize } else { selected }),
            Key::Tab | Key::Enter => MenuEvent::Confirm(selected),
            _ => MenuEvent::Ignore,
        },
        r matches MenuEvent::Select(k) ==> k < len,
        r matches MenuEvent::Confirm(k) ==> k < len,
{
    match code {
        Key::Esc => MenuEvent::Quit,
        Key::Left => MenuEvent::Select(if selected > 0 { selected - 1 } else { selected }),
        Key::Right => MenuEvent::Select(if selected < len - 1 { selected + 1 } else { selected }),
        Key::Tab | Key::Enter => MenuEvent::Confirm(selected),
        _ => MenuEvent::Ignore,
    }
}

} // verus!

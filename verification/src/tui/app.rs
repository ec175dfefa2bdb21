//! The state of the browser and what each key does to it.

use ratatui::widgets::ListState;
use vstd::prelude::*;

use crate::types::drift::{Drift, DriftReport};

verus! {

/// Which screen is currently showing.
#[derive(Debug, Clone, Copy, PartialEq, Eq, Structural)]
pub enum Tab {
    Drifts,
    Unresolved,
    Unjoinable,
}

impl Tab {
    /// The place of a screen in the row of tabs.
    pub open spec fn place(self) -> int {
        match self {
            Tab::Drifts => 0,
            Tab::Unresolved => 1,
            Tab::Unjoinable => 2,
        }
    }

    /// The screen at a place in the row of tabs.
    pub open spec fn at(place: int) -> Tab {
        if place == 0 {
            Tab::Drifts
        } else if place == 1 {
            Tab::Unresolved
        } else {
            Tab::Unjoinable
        }
    }

    /// The screen to the right, and after the last one the first.
    pub open spec fn right(self) -> Tab {
        Tab::at((self.place() + 1) % 3)
    }

    /// The screen to the left, and before the first one the last.
    pub open spec fn left(self) -> Tab {
        Tab::at((self.place() + 2) % 3)
    }

    /// The name on the tab.
    pub open spec fn title(self) -> Seq<char> {
        match self {
            Tab::Drifts => "Drifts"@,
            Tab::Unresolved => "Unresolved"@,
            Tab::Unjoinable => "Unjoinable"@,
        }
    }

    /// The name on the tab.
    pub fn label(self) -> (r: &'static str)
        ensures
            r@ == self.title(),
    {
        match self {
            Tab::Drifts => "Drifts",
            Tab::Unresolved => "Unresolved",
            Tab::Unjoinable => "Unjoinable",
        }
    }

    /// The place of this screen in the row of tabs.
    pub fn index(self) -> (r: usize)
        ensures
            r == self.place(),
    {
        match self {
            Tab::Drifts => 0,
            Tab::Unresolved => 1,
            Tab::Unjoinable => 2,
        }
    }

    /// The screen to the right, and after the last one the first.
    pub fn next(self) -> (r: Self)
        ensures
            r == self.right(),
    {
        match self {
            Tab::Drifts => Tab::Unresolved,
            Tab::Unresolved => Tab::Unjoinable,
            Tab::Unjoinable => Tab::Drifts,
        }
    }

    /// The screen to the left, and before the first one the last.
    pub fn previous(self) -> (r: Self)
        ensures
            r == self.left(),
    {
        match self {
            Tab::Drifts => Tab::Unjoinable,
            Tab::Unresolved => Tab::Drifts,
            Tab::Unjoinable => Tab::Unresolved,
        }
    }
}

/// Going right and going left undo each other, and three steps lead back.
pub proof fn tabs_form_a_cycle(tab: Tab)
    ensures
        tab.right().left() == tab,
        tab.left().right() == tab,
        tab.right().right().right() == tab,
        tab.left().left().left() == tab,
        tab.right() != tab,
        tab.left() != tab.right(),
{
}

/// A key as far as the browser tells keys apart.
#[derive(Debug, Clone, Copy, PartialEq, Eq, Structural)]
pub enum KeyCode {
    Char(char),
    Esc,
    Tab,
    BackTab,
    Up,
    Down,
    /// Any other key.
    Other,
}

/// One step down from a selection: to the first item when nothing is selected.
pub open spec fn one_down(selected: Option<usize>) -> Option<usize> {
    match selected {
        None => Some(0usize),
        Some(i) => if i < usize::MAX {
            Some((i + 1) as usize)
        } else {
            Some(usize::MAX)
        },
    }
}

/// One step up from a selection: to the last index there can be when nothing is selected.
pub open spec fn one_up(selected: Option<usize>) -> Option<usize> {
    match selected {
        None => Some(usize::MAX),
        Some(i) => if i > 0 {
            Some((i - 1) as usize)
        } else {
            Some(0usize)
        },
    }
}

/// Moves a selection with `ListState::select_next` (`ratatui`), which goes one index down, stops at
/// the largest `usize`, and starts at the first item; it knows nothing of how long the list is.
#[verifier::external_body]
fn next_selection(selected: Option<usize>) -> (r: Option<usize>)
    ensures
        r == one_down(selected),
{
    let mut state = ListState::default().with_selected(selected);
    state.select_next();
    state.selected()
}

/// Moves a selection with `ListState::select_previous` (`ratatui`), which goes one index up, stops
/// at zero, and goes to the largest `usize` when nothing is selected.
#[verifier::external_body]
fn previous_selection(selected: Option<usize>) -> (r: Option<usize>)
    ensures
        r == one_up(selected),
{
    let mut state = ListState::default().with_selected(selected);
    state.select_previous();
    state.selected()
}

/// Which item of a list is selected, if any.
#[derive(Debug, Clone, Copy)]
pub struct DriftList {
    selected: Option<usize>,
}

impl View for DriftList {
    type V = Option<usize>;

    closed spec fn view(&self) -> Option<usize> {
        self.selected
    }
}

impl Default for DriftList {
    fn default() -> (r: Self)
        ensures
            r@ == None::<usize>,
    {
        DriftList { selected: None }
    }
}

impl DriftList {
    /// The index of the selected item.
    pub fn selected(&self) -> (r: Option<usize>)
        ensures
            r == self@,
    {
        self.selected
    }

    /// Selects an item, or none.
    pub fn select(&mut self, index: Option<usize>)
        ensures
            final(self)@ == index,
    {
        self.selected = index;
    }

    fn select_next(&mut self)
        ensures
            final(self)@ == one_down(old(self)@),
    {
        self.selected = next_selection(self.selected);
    }

    fn select_previous(&mut self)
        ensures
            final(self)@ == one_up(old(self)@),
    {
        self.selected = previous_selection(self.selected);
    }
}

/// A selection brought inside a list of the given length.
pub open spec fn clamped(selected: Option<usize>, length: nat) -> Option<usize> {
    match selected {
        Some(i) if length > 0 && i >= length => Some((length - 1) as usize),
        Some(i) if length > 0 => Some(i),
        _ => None,
    }
}

/// Where a key leads, of the parts of the browser that keys change.
pub struct Moved {
    pub tab: Tab,
    pub selected: Option<usize>,
    pub should_quit: bool,
}

/// What one key does to the browser over a list of `length` drifts. The arrows move the selection
/// only while that list is showing.
pub open spec fn pressed(from: Moved, length: nat, key: KeyCode) -> Moved {
    if key == KeyCode::Char('q') || key == KeyCode::Esc {
        Moved { should_quit: true, ..from }
    } else if key == KeyCode::Tab {
        Moved { tab: from.tab.right(), ..from }
    } else if key == KeyCode::BackTab {
        Moved { tab: from.tab.left(), ..from }
    } else if from.tab == Tab::Drifts && (key == KeyCode::Down || key == KeyCode::Char('j')) {
        Moved { selected: clamped(one_down(from.selected), length), ..from }
    } else if from.tab == Tab::Drifts && (key == KeyCode::Up || key == KeyCode::Char('k')) {
        Moved { selected: clamped(one_up(from.selected), length), ..from }
    } else {
        from
    }
}

/// Nothing is selected, or one of the `length` items is.
pub open spec fn in_bounds(selected: Option<usize>, length: nat) -> bool {
    match selected {
        Some(i) => i < length,
        None => true,
    }
}

/// What several keys do, one after the other.
pub open spec fn pressed_all(from: Moved, length: nat, keys: Seq<KeyCode>) -> Moved
    decreases keys.len(),
{
    if keys.len() == 0 {
        from
    } else {
        pressed(pressed_all(from, length, keys.drop_last()), length, keys.last())
    }
}

/// Whatever keys are pressed, the selection never leaves the list, and a selection that was inside
/// a list is never lost.
pub proof fn selection_stays_in_bounds(from: Moved, length: nat, keys: Seq<KeyCode>)
    requires
        in_bounds(from.selected, length),
        length <= usize::MAX,
    ensures
        in_bounds(pressed_all(from, length, keys).selected, length),
        from.selected is Some ==> pressed_all(from, length, keys).selected is Some,
    decreases keys.len(),
{
    if keys.len() > 0 {
        selection_stays_in_bounds(from, length, keys.drop_last());
    }
}

/// Away from the list of drifts no key changes the selection.
pub proof fn arrows_are_ignored_elsewhere(from: Moved, length: nat, key: KeyCode)
    requires
        from.tab != Tab::Drifts,
    ensures
        pressed(from, length, key).selected == from.selected,
{
}

/// Only `q` and `Esc` end the browser, and they change nothing else.
pub proof fn only_quit_keys_quit(from: Moved, length: nat, key: KeyCode)
    requires
        !from.should_quit,
    ensures
        pressed(from, length, key).should_quit == (key == KeyCode::Char('q') || key
            == KeyCode::Esc),
        pressed(from, length, key).should_quit ==> pressed(from, length, key).tab == from.tab
            && pressed(from, length, key).selected == from.selected,
{
}

/// Going up undoes going down, but for the last item, where down stays.
pub proof fn up_undoes_down(from: Moved, length: nat)
    requires
        from.tab == Tab::Drifts,
        from.selected is Some,
        from.selected->0 + 1 < length <= usize::MAX,
    ensures
        pressed(pressed(from, length, KeyCode::Down), length, KeyCode::Up) == from,
{
}

/// Interactive state for browsing one report.
#[derive(Debug)]
pub struct App {
    pub state_path: String,
    pub report: DriftReport,
    pub tab: Tab,
    pub drift_list: DriftList,
    pub should_quit: bool,
}

impl App {
    /// The parts of the browser that keys change.
    pub open spec fn position(&self) -> Moved {
        Moved { tab: self.tab, selected: self.drift_list@, should_quit: self.should_quit }
    }

    /// Starts at the list of drifts, on the first of them.
    pub fn new(state_path: String, report: DriftReport) -> (r: Self)
        ensures
            r.state_path == state_path,
            r.report == report,
            r.position() == (Moved {
                tab: Tab::Drifts,
                selected: if report.drifts@.len() > 0 {
                    Some(0usize)
                } else {
                    None
                },
                should_quit: false,
            }),
    {
        let mut drift_list = DriftList::default();
        if report.drifts.len() > 0 {
            drift_list.select(Some(0));
        }
        App { state_path, report, tab: Tab::Drifts, drift_list, should_quit: false }
    }

    /// Acts on one key.
    pub fn on_key(&mut self, key: KeyCode)
        ensures
            final(self).state_path == old(self).state_path,
            final(self).report == old(self).report,
            final(self).position() == pressed(
                old(self).position(),
                old(self).report.drifts@.len(),
                key,
            ),
    {
        match key {
            KeyCode::Char('q') | KeyCode::Esc => {
                self.should_quit = true;
            },
            KeyCode::Tab => {
                self.tab = self.tab.next();
            },
            KeyCode::BackTab => {
                self.tab = self.tab.previous();
            },
            KeyCode::Down | KeyCode::Char('j') => {
                if self.tab == Tab::Drifts {
                    self.drift_list.select_next();
                    self.clamp_drift_selection();
                }
            },
            KeyCode::Up | KeyCode::Char('k') => {
                if self.tab == Tab::Drifts {
                    self.drift_list.select_previous();
                    self.clamp_drift_selection();
                }
            },
            _ => {},
        }
    }

    /// Brings the selection back into the list. Moving it knows nothing of how long the list is.
    pub fn clamp_drift_selection(&mut self)
        ensures
            final(self).state_path == old(self).state_path,
            final(self).report == old(self).report,
            final(self).tab == old(self).tab,
            final(self).should_quit == old(self).should_quit,
            final(self).drift_list@ == clamped(
                old(self).drift_list@,
                old(self).report.drifts@.len(),
            ),
    {
        let length: usize = self.report.drifts.len();
        if length == 0 {
            self.drift_list.select(None);
            return ;
        }
        if let Some(i) = self.drift_list.selected() {
            let last: usize = length - 1;
            self.drift_list.select(
                Some(
                    if i < last {
                        i
                    } else {
                        last
                    },
                ),
            );
        }
    }

    /// The selected drift, when the selection is inside the list.
    pub open spec fn shown(&self) -> Option<Drift> {
        match self.drift_list@ {
            Some(i) if i < self.report.drifts@.len() => Some(self.report.drifts@[i as int]),
            _ => None,
        }
    }

    /// The selected drift, when the selection is inside the list.
    pub fn selected_drift(&self) -> (r: Option<&Drift>)
        ensures
            match r {
                Some(drift) => self.shown() == Some(*drift),
                None => self.shown() is None,
            },
    {
        match self.drift_list.selected() {
            Some(i) => if i < self.report.drifts.len() {
                Some(&self.report.drifts[i])
            } else {
                None
            },
            None => None,
        }
    }
}

} // verus!

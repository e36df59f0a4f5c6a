//! The application's persistent state: the theme and the paystubs, keyed by
//! the identifier given to each paystub when it was imported.
use vstd::prelude::*;
use crate::paystub::{Paystub, PaystubState, PaystubView, StateView, CLOCK_BOUND_MS};
use crate::text::{contains_text, find_text};
use crate::pairs::{put, put_pair, unique_labels, lemma_put_keeps_unique, value_of, has_label};

verus! {

/// The colour theme of the interface.
#[derive(PartialEq, Eq, Structural, Clone, Copy, Debug)]
pub enum Theme {
    Dark,
    Light,
    System,
}

impl Default for Theme {
    /// The theme follows the system's.
    fn default() -> (r: Theme)
        ensures
            r == Theme::System,
    {
        Theme::System
    }
}

/// What the interface asks of the application.
#[derive(PartialEq, Eq, Structural, Clone, Copy, Debug)]
pub enum Event {
    ToggleSettingsWindow { opened: bool },
    ChangeTheme(Theme),
    ImportPaystubs,
}

/// The application's persistent state.
///
/// `paystubs` is keyed by an identifier (a v4 UUID) given to each paystub
/// when it is created: stable, independent of `file` (which may change if the
/// file is renamed or moved). No identifier occurs twice.
#[derive(Debug, PartialEq, Eq)]
pub struct Store {
    pub theme: Theme,
    pub paystubs: Vec<(String, Paystub)>,
}

impl Store {
    /// No identifier occurs twice among the paystubs.
    pub open spec fn wf(&self) -> bool {
        unique_labels(self.paystubs@)
    }

    /// An empty store with the default theme.
    pub fn new() -> (r: Store)
        ensures
            r.wf(),
            r.theme == Theme::System,
            r.paystubs@.len() == 0,
    {
        Store { theme: Theme::System, paystubs: Vec::new() }
    }

    /// Stores `paystub` under `id`, replacing the paystub stored there if any.
    pub fn insert_paystub(&mut self, id: String, paystub: Paystub)
        requires
            old(self).wf(),
        ensures
            final(self).wf(),
            final(self).theme == old(self).theme,
            final(self).paystubs@ == put(old(self).paystubs@, id, paystub),
            value_of(final(self).paystubs@, id@) == Some(paystub),
            forall|k: Seq<char>|
                k != id@ ==> value_of(final(self).paystubs@, k) == value_of(old(self).paystubs@, k),
    {
        proof {
            lemma_put_keeps_unique(self.paystubs@, id, paystub);
        }
        put_pair(&mut self.paystubs, id, paystub);
    }
}

impl Default for Store {
    fn default() -> (r: Store)
        ensures
            r.wf(),
            r.theme == Theme::System,
            r.paystubs@.len() == 0,
    {
        Store::new()
    }
}

/// The positions, below `n`, of the paystubs of `ps` whose file name
/// contains `search`, in order.
pub open spec fn matching_positions(ps: Seq<(String, Paystub)>, search: Seq<char>, n: int) -> Seq<usize>
    decreases n,
{
    if n <= 0 {
        Seq::empty()
    } else if contains_text(ps[n - 1].1.file@, search) {
        matching_positions(ps, search, n - 1).push((n - 1) as usize)
    } else {
        matching_positions(ps, search, n - 1)
    }
}

impl Store {
    /// The positions of the paystubs whose file name contains `search`, in
    /// store order (what the paystub list shows).
    pub fn search(&self, search: &str) -> (r: Vec<usize>)
        ensures
            r@ == matching_positions(self.paystubs@, search@, self.paystubs@.len() as int),
    {
        let mut r: Vec<usize> = Vec::new();
        let mut i: usize = 0;
        while i < self.paystubs.len()
            invariant
                i <= self.paystubs@.len(),
                r@ == matching_positions(self.paystubs@, search@, i as int),
            decreases self.paystubs.len() - i,
        {
            if find_text(self.paystubs[i].1.file.as_str(), search) {
                r.push(i);
            }
            i = i + 1;
        }
        r
    }

    /// Records a freshly imported paystub file under the identifier `id`, as
    /// a new `Pending` paystub (since the current time).
    pub fn import_paystub(&mut self, id: String, file: String)
        requires
            old(self).wf(),
        ensures
            final(self).wf(),
            final(self).theme == old(self).theme,
            exists|p: Paystub| {
                &&& p@.file == file@
                &&& p@.state == StateView::Pending
                &&& -CLOCK_BOUND_MS <= p.since <= CLOCK_BOUND_MS
                &&& final(self).paystubs@ == #[trigger] put(old(self).paystubs@, id, p)
            },
    {
        let paystub = Paystub::pending(file);
        self.insert_paystub(id, paystub);
    }
}

/// The status shown for a paystub state.
pub open spec fn status_label_of(s: StateView) -> &'static str {
    match s {
        StateView::Pending => "En attente",
        StateView::Processing => "En cours",
        StateView::ProcessingError { .. } => "Erreur",
        StateView::Completed { .. } => "Completed",
    }
}

/// The status shown for a paystub.
pub fn status_label(paystub: &Paystub) -> (r: &'static str)
    ensures
        r == status_label_of(paystub@.state),
{
    match &paystub.state {
        PaystubState::Pending => "En attente",
        PaystubState::Processing => "En cours",
        PaystubState::ProcessingError { .. } => "Erreur",
        PaystubState::Completed { .. } => "Completed",
    }
}

/// The settings window.
#[derive(Debug, PartialEq, Eq)]
pub struct Settings {
    pub open: bool,
}

impl Default for Settings {
    /// The window starts closed.
    fn default() -> (r: Settings)
        ensures
            !r.open,
    {
        Settings { open: false }
    }
}

impl Settings {
    /// Handles the settings events taken from the queue: a request to open or
    /// close the window, and a theme change, which is recorded in the store.
    /// Returns whether the theme changed (then the interface takes it and the
    /// store is saved).
    pub fn apply_events(&mut self, store: &mut Store, toggle: Option<bool>, theme: Option<Theme>) -> (changed: bool)
        ensures
            final(self).open == match toggle {
                Some(opened) => opened,
                None => old(self).open,
            },
            final(store).theme == match theme {
                Some(t) => t,
                None => old(store).theme,
            },
            final(store).paystubs == old(store).paystubs,
            changed == theme is Some,
    {
        if let Some(opened) = toggle {
            self.open = opened;
        }
        match theme {
            Some(t) => {
                store.theme = t;
                true
            },
            None => false,
        }
    }
}

/// The menu bar. It asks for imports and for the settings window through
/// events; the import itself goes through `Store::import_paystub`.
#[derive(Debug, PartialEq, Eq)]
pub struct Menu {}

impl Default for Menu {
    fn default() -> (r: Menu) {
        Menu {}
    }
}

} // verus!

//! Tabs, browsing history and breadcrumbs.
use crate::paths::{is_entry_name, names_entry, FsPath, PathView};
use crate::text::copy_text;
use crate::types::{fresh_tab, tab_views, SortColumn, TabState, TabView};
use vstd::prelude::*;

verus! {

// ---------------------------------------------------------------------------
// Tabs and history
// ---------------------------------------------------------------------------

/// The open tabs, which of them is shown, and what it shows now. The tab that
/// is shown is brought up to date when it is saved.
pub struct Browser {
    pub tabs: Vec<TabState>,
    pub active_tab: usize,
    pub current: TabState,
    /// The path whose drive is waited for.
    pub loading_path: Option<FsPath>,
}

/// The view of a `Browser`.
#[verifier::ext_equal]
pub struct BrowserView {
    pub tabs: Seq<TabView>,
    pub active_tab: nat,
    pub current: TabView,
    pub loading_path: Option<PathView>,
}

impl View for Browser {
    type V = BrowserView;

    open spec fn view(&self) -> BrowserView {
        BrowserView {
            tabs: tab_views(self.tabs@),
            active_tab: self.active_tab as nat,
            current: self.current@,
            loading_path: match self.loading_path {
                Some(p) => Some(p@),
                None => None,
            },
        }
    }
}

/// What is to be done for a folder that is to be shown.
#[derive(Clone, Copy, PartialEq, Eq, Structural)]
pub enum LoadPlan {
    /// Nothing: another folder is not to be shown.
    Nothing,
    /// Wait until its drive answers, with an empty listing meanwhile.
    Probe,
    /// List it, watch it and open the tree down to it.
    LoadNow,
}

impl BrowserView {
    /// One of the tabs is shown.
    pub open spec fn sound(self) -> bool {
        self.active_tab < self.tabs.len()
    }

    /// The given tabs, of which `active` is shown, with its histories and its filter. The order is
    /// the one that was last chosen.
    pub open spec fn opened(
        tabs: Seq<TabView>,
        active: nat,
        sort_column: SortColumn,
        sort_ascending: bool,
    ) -> BrowserView {
        let active_tab = if active < tabs.len() {
            active
        } else {
            (tabs.len() - 1) as nat
        };
        BrowserView {
            tabs,
            active_tab,
            current: TabView { sort_column, sort_ascending, ..tabs[active_tab as int] },
            loading_path: None,
        }
    }

    /// What a new start opens.
    pub open spec fn started(
        session: Option<(Seq<TabView>, nat)>,
        kept: Option<Seq<TabView>>,
        kept_active: nat,
        last: PathView,
        sort_column: SortColumn,
        sort_ascending: bool,
    ) -> BrowserView {
        if session is Some && (session->0).0.len() > 0 {
            BrowserView::opened(
                (session->0).0,
                (session->0).1,
                sort_column,
                sort_ascending,
            )
        } else if session is None && kept is Some && (kept->0).len() > 0 {
            BrowserView::opened(kept->0, kept_active, sort_column, sort_ascending)
        } else {
            BrowserView::opened(seq![fresh_tab(last)], 0, sort_column, sort_ascending)
        }
    }

    /// The tabs `from` and `to` have changed places.
    pub open spec fn swapped(self, from: nat, to: nat) -> BrowserView {
        let tabs = self.saved().tabs;
        BrowserView {
            tabs: tabs.update(from as int, tabs[to as int]).update(to as int, tabs[from as int]),
            active_tab: if self.active_tab == from {
                to
            } else if self.active_tab == to {
                from
            } else {
                self.active_tab
            },
            ..self
        }
    }

    /// The tab that is shown, brought up to date.
    pub open spec fn saved(self) -> BrowserView {
        BrowserView { tabs: self.tabs.update(self.active_tab as int, self.current), ..self }
    }

    /// The tab `i` as what is shown.
    pub open spec fn restored(self, i: nat) -> BrowserView {
        BrowserView { current: self.tabs[i as int], ..self }
    }

    /// The tab `i` is shown in place of the one that is.
    pub open spec fn switched(self, i: nat) -> BrowserView {
        if i == self.active_tab || i >= self.tabs.len() {
            self
        } else {
            BrowserView { active_tab: i, ..self.saved() }.restored(i)
        }
    }

    /// A new tab at the end is shown.
    pub open spec fn with_new_tab(self, path: PathView) -> BrowserView {
        BrowserView {
            tabs: self.saved().tabs.push(fresh_tab(path)),
            active_tab: self.tabs.len(),
            current: fresh_tab(path),
            ..self
        }
    }

    /// The tab `i` is gone, unless it is the last one that is left.
    pub open spec fn without_tab(self, i: nat) -> BrowserView {
        if self.tabs.len() <= 1 {
            self
        } else {
            let tabs = self.tabs.remove(i as int);
            let active_tab = if self.active_tab >= tabs.len() {
                (tabs.len() - 1) as nat
            } else if i < self.active_tab {
                (self.active_tab - 1) as nat
            } else {
                self.active_tab
            };
            let b = BrowserView { tabs, active_tab, ..self };
            if i == self.active_tab {
                b.restored(active_tab)
            } else {
                b
            }
        }
    }

    /// `path` is shown. Where its drive may sleep, it is waited for.
    pub open spec fn committed(self, path: PathView, slow: bool) -> BrowserView {
        BrowserView {
            current: TabView { path, ..self.current },
            loading_path: if slow {
                Some(path)
            } else {
                None
            },
            ..self
        }.saved()
    }

    /// `path` is shown, and the way back leads to what was shown before.
    pub open spec fn navigated(self, path: PathView, slow: bool) -> BrowserView {
        if !path.is_same(self.current.path) {
            BrowserView {
                current: TabView {
                    back_history: self.current.back_history.push(self.current.path),
                    forward_history: Seq::empty(),
                    ..self.current
                },
                ..self
            }.committed(path, slow)
        } else {
            self.committed(path, slow)
        }
    }

    /// What was shown before is shown again.
    pub open spec fn went_back(self, slow: bool) -> BrowserView {
        if self.current.back_history.len() == 0 {
            self
        } else {
            BrowserView {
                current: TabView {
                    back_history: self.current.back_history.drop_last(),
                    forward_history: self.current.forward_history.push(self.current.path),
                    ..self.current
                },
                ..self
            }.committed(self.current.back_history.last(), slow)
        }
    }

    /// What was left by going back is shown again.
    pub open spec fn went_forward(self, slow: bool) -> BrowserView {
        if self.current.forward_history.len() == 0 {
            self
        } else {
            BrowserView {
                current: TabView {
                    forward_history: self.current.forward_history.drop_last(),
                    back_history: self.current.back_history.push(self.current.path),
                    ..self.current
                },
                ..self
            }.committed(self.current.forward_history.last(), slow)
        }
    }
}

impl Browser {
    /// A browser with one tab on `path`, sorted as asked for.
    pub fn new(path: FsPath, sort_column: SortColumn, sort_ascending: bool) -> (r: Browser)
        ensures
            r@ == BrowserView::opened(seq![fresh_tab(path@)], 0, sort_column, sort_ascending),
            r@.sound(),
    {
        let tab = TabState::new(path);
        let mut tabs: Vec<TabState> = Vec::new();
        tabs.push(tab);
        assert(tab_views(tabs@) =~= seq![fresh_tab(path@)]);
        Browser::from_tabs(tabs, 0, sort_column, sort_ascending)
    }

    /// A browser with the given tabs, of which `active` is shown, or the last one where there is
    /// no such tab. What is shown has the histories and the filter of that tab, and is sorted as
    /// asked for.
    pub fn from_tabs(
        tabs: Vec<TabState>,
        active: usize,
        sort_column: SortColumn,
        sort_ascending: bool,
    ) -> (r: Browser)
        requires
            tabs@.len() > 0,
        ensures
            r@ == BrowserView::opened(
                tab_views(tabs@),
                active as nat,
                sort_column,
                sort_ascending,
            ),
            r@.sound(),
    {
        let active_tab: usize = if active < tabs.len() {
            active
        } else {
            tabs.len() - 1
        };
        let mut current = tabs[active_tab].copy();
        current.sort_column = sort_column;
        current.sort_ascending = sort_ascending;
        Browser { tabs, active_tab, current, loading_path: None }
    }

    /// The browser of a new start: with the tabs of the session that was asked for, else with
    /// those that were kept at the last exit, else with one tab on `last`.
    pub fn start(
        session: Option<(Vec<TabState>, usize)>,
        kept: Option<Vec<TabState>>,
        kept_active: Option<usize>,
        last: FsPath,
        sort_column: SortColumn,
        sort_ascending: bool,
    ) -> (r: Browser)
        ensures
            r@ == BrowserView::started(
                match session {
                    Some(s) => Some((tab_views(s.0@), s.1 as nat)),
                    None => None,
                },
                match kept {
                    Some(k) => Some(tab_views(k@)),
                    None => None,
                },
                match kept_active {
                    Some(a) => a as nat,
                    None => 0,
                },
                last@,
                sort_column,
                sort_ascending,
            ),
            r@.sound(),
    {
        match session {
            Some((tabs, active)) => {
                if tabs.len() > 0 {
                    return Browser::from_tabs(tabs, active, sort_column, sort_ascending);
                }
            },
            None => {
                if let Some(tabs) = kept {
                    if tabs.len() > 0 {
                        let active: usize = match kept_active {
                            Some(a) => a,
                            None => 0,
                        };
                        return Browser::from_tabs(tabs, active, sort_column, sort_ascending);
                    }
                }
            },
        }
        Browser::new(last, sort_column, sort_ascending)
    }

    /// Puts the tab `from` in the place of the tab `to`, and the other way round. What is shown
    /// stays what it is.
    pub fn swap_tabs(&mut self, from: usize, to: usize)
        requires
            old(self)@.sound(),
            from < old(self)@.tabs.len(),
            to < old(self)@.tabs.len(),
        ensures
            final(self)@ == old(self)@.swapped(from as nat, to as nat),
            final(self)@.sound(),
    {
        self.save_active_tab();
        let ghost before = self@.tabs;
        let a = self.tabs[from].copy();
        let b = self.tabs[to].copy();
        self.tabs.set(from, b);
        self.tabs.set(to, a);
        assert(self@.tabs =~= before.update(from as int, before[to as int]).update(
            to as int,
            before[from as int],
        ));
        if self.active_tab == from {
            self.active_tab = to;
        } else if self.active_tab == to {
            self.active_tab = from;
        }
    }

    /// Brings the tab that is shown up to date.
    pub fn save_active_tab(&mut self)
        requires
            old(self)@.sound(),
        ensures
            final(self)@ == old(self)@.saved(),
            final(self)@.sound(),
    {
        let ghost before = self@.tabs;
        let tab = self.current.copy();
        self.tabs.set(self.active_tab, tab);
        assert(self@.tabs =~= before.update(self.active_tab as int, self.current@));
    }

    /// Shows the tab `index`.
    pub fn restore_tab(&mut self, index: usize)
        requires
            index < old(self)@.tabs.len(),
        ensures
            final(self)@ == old(self)@.restored(index as nat),
    {
        self.current = self.tabs[index].copy();
    }

    /// Shows the tab `index` in place of the one that is shown.
    pub fn switch_to_tab(&mut self, index: usize) -> (r: LoadPlan)
        requires
            old(self)@.sound(),
        ensures
            final(self)@ == old(self)@.switched(index as nat),
            final(self)@.sound(),
            r == if index == old(self)@.active_tab || index >= old(self)@.tabs.len() {
                LoadPlan::Nothing
            } else {
                LoadPlan::LoadNow
            },
    {
        if index == self.active_tab || index >= self.tabs.len() {
            return LoadPlan::Nothing;
        }
        self.save_active_tab();
        self.active_tab = index;
        self.restore_tab(index);
        LoadPlan::LoadNow
    }

    /// Opens a new tab on `path`, or on the path that is shown.
    pub fn new_tab(&mut self, path: Option<FsPath>) -> (r: LoadPlan)
        requires
            old(self)@.sound(),
        ensures
            final(self)@ == old(self)@.with_new_tab(
                match path {
                    Some(p) => p@,
                    None => old(self)@.current.path,
                },
            ),
            final(self)@.sound(),
            r == LoadPlan::LoadNow,
    {
        self.save_active_tab();
        let tab_path = match path {
            Some(p) => p,
            None => self.current.path.copy(),
        };
        let ghost before = self@.tabs;
        self.tabs.push(TabState::new(tab_path));
        assert(self@.tabs =~= before.push(fresh_tab(tab_path@)));
        self.active_tab = self.tabs.len() - 1;
        self.restore_tab(self.active_tab);
        LoadPlan::LoadNow
    }

    /// Closes the tab `index`, unless it is the last one that is left.
    pub fn close_tab(&mut self, index: usize) -> (r: LoadPlan)
        requires
            old(self)@.sound(),
            index < old(self)@.tabs.len(),
        ensures
            final(self)@ == old(self)@.without_tab(index as nat),
            final(self)@.sound(),
            r == if old(self)@.tabs.len() > 1 && index == old(self)@.active_tab {
                LoadPlan::LoadNow
            } else {
                LoadPlan::Nothing
            },
    {
        if self.tabs.len() <= 1 {
            return LoadPlan::Nothing;
        }
        let was_active = index == self.active_tab;
        let ghost before = self@.tabs;
        self.tabs.remove(index);
        assert(self@.tabs =~= before.remove(index as int));
        if self.active_tab >= self.tabs.len() {
            self.active_tab = self.tabs.len() - 1;
        } else if index < self.active_tab {
            self.active_tab = self.active_tab - 1;
        }
        if was_active {
            self.restore_tab(self.active_tab);
            LoadPlan::LoadNow
        } else {
            LoadPlan::Nothing
        }
    }

    /// Shows `path`; where its drive may sleep, its drive is waited for.
    pub fn commit_navigation(&mut self, path: FsPath, slow: bool) -> (r: LoadPlan)
        requires
            old(self)@.sound(),
        ensures
            final(self)@ == old(self)@.committed(path@, slow),
            final(self)@.sound(),
            r == if slow {
                LoadPlan::Probe
            } else {
                LoadPlan::LoadNow
            },
    {
        self.loading_path = if slow {
            Some(path.copy())
        } else {
            None
        };
        self.current.path = path;
        self.save_active_tab();
        if slow {
            LoadPlan::Probe
        } else {
            LoadPlan::LoadNow
        }
    }

    /// Shows `path`, with a way back to what was shown.
    pub fn navigate_to(&mut self, path: FsPath, slow: bool) -> (r: LoadPlan)
        requires
            old(self)@.sound(),
        ensures
            final(self)@ == old(self)@.navigated(path@, slow),
            final(self)@.sound(),
            r == if slow {
                LoadPlan::Probe
            } else {
                LoadPlan::LoadNow
            },
    {
        if !path.same(&self.current.path) {
            let ghost before = self@.current;
            self.current.back_history.push(self.current.path.copy());
            self.current.forward_history = Vec::new();
            assert(self@.current.back_history =~= before.back_history.push(before.path));
            assert(self@.current.forward_history =~= Seq::empty());
        }
        self.commit_navigation(path, slow)
    }

    /// The path that going back would show.
    pub fn back_path(&self) -> (r: Option<FsPath>)
        ensures
            match r {
                Some(p) => self@.current.back_history.len() > 0
                    && self@.current.back_history.last() == p@,
                None => self@.current.back_history.len() == 0,
            },
    {
        let n: usize = self.current.back_history.len();
        if n == 0 {
            None
        } else {
            Some(self.current.back_history[n - 1].copy())
        }
    }

    /// The path that going forward would show.
    pub fn forward_path(&self) -> (r: Option<FsPath>)
        ensures
            match r {
                Some(p) => self@.current.forward_history.len() > 0
                    && self@.current.forward_history.last() == p@,
                None => self@.current.forward_history.len() == 0,
            },
    {
        let n: usize = self.current.forward_history.len();
        if n == 0 {
            None
        } else {
            Some(self.current.forward_history[n - 1].copy())
        }
    }

    /// Shows what was shown before; `slow` says whether its drive may sleep.
    pub fn go_back(&mut self, slow: bool) -> (r: LoadPlan)
        requires
            old(self)@.sound(),
        ensures
            final(self)@ == old(self)@.went_back(slow),
            final(self)@.sound(),
            r == if old(self)@.current.back_history.len() == 0 {
                LoadPlan::Nothing
            } else if slow {
                LoadPlan::Probe
            } else {
                LoadPlan::LoadNow
            },
    {
        let ghost before = self@.current;
        match self.current.back_history.pop() {
            Some(previous) => {
                assert(before.back_history.last() == previous@);
                assert(self@.current.back_history =~= before.back_history.drop_last());
                self.current.forward_history.push(self.current.path.copy());
                assert(self@.current.forward_history =~= before.forward_history.push(before.path));
                self.commit_navigation(previous, slow)
            },
            None => {
                assert(self@.current.back_history =~= before.back_history);
                LoadPlan::Nothing
            },
        }
    }

    /// Shows what was left by going back.
    pub fn go_forward(&mut self, slow: bool) -> (r: LoadPlan)
        requires
            old(self)@.sound(),
        ensures
            final(self)@ == old(self)@.went_forward(slow),
            final(self)@.sound(),
            r == if old(self)@.current.forward_history.len() == 0 {
                LoadPlan::Nothing
            } else if slow {
                LoadPlan::Probe
            } else {
                LoadPlan::LoadNow
            },
    {
        let ghost before = self@.current;
        match self.current.forward_history.pop() {
            Some(next) => {
                assert(before.forward_history.last() == next@);
                assert(self@.current.forward_history =~= before.forward_history.drop_last());
                self.current.back_history.push(self.current.path.copy());
                assert(self@.current.back_history =~= before.back_history.push(before.path));
                self.commit_navigation(next, slow)
            },
            None => {
                assert(self@.current.forward_history =~= before.forward_history);
                LoadPlan::Nothing
            },
        }
    }

    /// The drive that was waited for answered: its folder is listed where it
    /// can be had.
    pub fn on_probe(&mut self, accessible: bool) -> (r: LoadPlan)
        ensures
            final(self)@ == (BrowserView { loading_path: None, ..old(self)@ }),
            r == if accessible {
                LoadPlan::LoadNow
            } else {
                LoadPlan::Nothing
            },
    {
        self.loading_path = None;
        if accessible {
            LoadPlan::LoadNow
        } else {
            LoadPlan::Nothing
        }
    }
}

// ---------------------------------------------------------------------------
// Tabs that are dragged
// ---------------------------------------------------------------------------

/// The tab that is dragged in this frame: a drag begins once the pointer moves off from a press
/// on a tab.
pub open spec fn tab_in_hand(
    dragged: Option<usize>,
    pressed_on: Option<usize>,
    held: bool,
    moving: bool,
) -> Option<usize> {
    if dragged is None && held && moving {
        pressed_on
    } else {
        dragged
    }
}

/// Drags a tab over others: it changes places with the one under the pointer, and is dragged on
/// from there. Gives the tab that is dragged and the two that change places.
pub fn drag_tab(
    dragged: Option<usize>,
    pressed_on: Option<usize>,
    over: Option<usize>,
    held: bool,
    moving: bool,
) -> (r: (Option<usize>, Option<(usize, usize)>))
    ensures
        match (tab_in_hand(dragged, pressed_on, held, moving), over) {
            (Some(from), Some(to)) => if from != to {
                r == (Some(to), Some((from, to)))
            } else {
                r == (if held {
                    Some(from)
                } else {
                    None
                }, None::<(usize, usize)>)
            },
            (now, None) => r == (if held {
                now
            } else {
                None
            }, None::<(usize, usize)>),
            (None, Some(_)) => r == (None::<usize>, None::<(usize, usize)>),
        },
{
    let now: Option<usize> = match dragged {
        Some(i) => Some(i),
        None => if held && moving {
            pressed_on
        } else {
            None
        },
    };
    match (now, over) {
        (Some(from), Some(to)) => {
            if from != to {
                return (Some(to), Some((from, to)));
            }
        },
        _ => {},
    }
    if held {
        (now, None)
    } else {
        (None, None)
    }
}

// ---------------------------------------------------------------------------
// What navigation promises
// ---------------------------------------------------------------------------

/// Going forward undoes going back.
pub proof fn forward_undoes_back(b: BrowserView, s1: bool, s2: bool)
    requires
        b.sound(),
        b.current.back_history.len() > 0,
    ensures
        b.went_back(s1).went_forward(s2).current == b.current,
{
    let c = b.went_back(s1);
    assert(c.current.forward_history.drop_last() =~= b.current.forward_history);
    assert(b.current.back_history.drop_last().push(b.current.back_history.last())
        =~= b.current.back_history);
}

/// Going back undoes going forward.
pub proof fn back_undoes_forward(b: BrowserView, s1: bool, s2: bool)
    requires
        b.sound(),
        b.current.forward_history.len() > 0,
    ensures
        b.went_forward(s1).went_back(s2).current == b.current,
{
    let c = b.went_forward(s1);
    assert(c.current.back_history.drop_last() =~= b.current.back_history);
    assert(b.current.forward_history.drop_last().push(b.current.forward_history.last())
        =~= b.current.forward_history);
}

/// Going back after navigating elsewhere shows what was shown, with the way
/// back as it was and the way forward to the other folder alone.
pub proof fn back_undoes_navigation(b: BrowserView, path: PathView, s1: bool, s2: bool)
    requires
        b.sound(),
        !path.is_same(b.current.path),
    ensures
        b.navigated(path, s1).went_back(s2).current == (TabView {
            forward_history: seq![path],
            ..b.current
        }),
{
    let c = b.navigated(path, s1);
    assert(c.current.back_history.drop_last() =~= b.current.back_history);
    assert(c.current.forward_history.push(path) =~= seq![path]);
}

/// Navigating to the folder that is shown adds nothing to the history, however
/// its path is written.
pub proof fn staying_keeps_history(b: BrowserView, path: PathView, slow: bool)
    requires
        b.sound(),
        path.is_same(b.current.path),
    ensures
        b.navigated(path, slow).current == (TabView { path, ..b.current }),
{
}

/// Switching to another tab and back shows what was shown, and leaves every
/// other tab as it was.
pub proof fn switching_back_restores(b: BrowserView, i: nat)
    requires
        b.sound(),
        i < b.tabs.len(),
    ensures
        b.switched(i).switched(b.active_tab).current == b.current,
        b.switched(i).switched(b.active_tab).active_tab == b.active_tab,
        forall|k: int|
            0 <= k < b.tabs.len() && k != b.active_tab ==> #[trigger] b.switched(i).switched(
                b.active_tab,
            ).tabs[k] == b.tabs[k],
{
}

/// A browser always shows one of its tabs: neither opening, switching nor
/// closing leaves it without one.
pub proof fn a_tab_is_always_shown(b: BrowserView, i: nat, path: PathView)
    requires
        b.sound(),
    ensures
        b.switched(i).sound(),
        b.with_new_tab(path).sound(),
        i < b.tabs.len() ==> b.without_tab(i).sound(),
{
}

/// Closing a tab that is not shown does not change what is shown, nor which
/// of the other tabs it is.
pub proof fn closing_another_tab_changes_nothing(b: BrowserView, i: nat)
    requires
        b.sound(),
        i < b.tabs.len(),
        i != b.active_tab,
    ensures
        b.without_tab(i).current == b.current,
        b.without_tab(i).tabs[b.without_tab(i).active_tab as int] == b.tabs[b.active_tab as int],
{
}

/// Moving tabs about changes neither what is shown nor what any tab holds; doing it twice puts
/// them back.
pub proof fn swapping_keeps_what_is_shown(b: BrowserView, from: nat, to: nat)
    requires
        b.sound(),
        from < b.tabs.len(),
        to < b.tabs.len(),
    ensures
        b.swapped(from, to).current == b.current,
        b.swapped(from, to).tabs[b.swapped(from, to).active_tab as int] == b.current,
        b.swapped(from, to).swapped(to, from) == b.saved(),
        b.swapped(from, to).tabs.to_multiset() == b.saved().tabs.to_multiset(),
{
    let s = b.saved();
    let t = b.swapped(from, to);
    assert(t.saved().tabs =~= t.tabs);
    assert(t.swapped(to, from).tabs =~= s.tabs);
    let half = s.tabs.update(from as int, s.tabs[to as int]);
    vstd::seq_lib::to_multiset_update(s.tabs, from as int, s.tabs[to as int]);
    vstd::seq_lib::to_multiset_update(half, to as int, s.tabs[from as int]);
    vstd::seq_lib::to_multiset_contains(s.tabs, s.tabs[from as int]);
    vstd::seq_lib::to_multiset_contains(s.tabs, s.tabs[to as int]);
    assert(half[to as int] == s.tabs[to as int]);
    assert(t.tabs.to_multiset() =~= s.tabs.to_multiset());
}

/// A session that was saved comes up again: the same tabs, with the same one shown on the same
/// folder, with the same histories and the same filter. It is sorted as was last chosen, so that
/// all of it is as it was where that is how it was sorted.
pub proof fn a_saved_session_comes_up_again(
    b: BrowserView,
    kept: Option<Seq<TabView>>,
    kept_active: nat,
    last: PathView,
    sort_column: SortColumn,
    sort_ascending: bool,
)
    requires
        b.sound(),
    ensures
        ({
            let s = b.saved();
            let again = BrowserView::started(
                Some((s.tabs, s.active_tab)),
                kept,
                kept_active,
                last,
                sort_column,
                sort_ascending,
            );
            again.tabs == s.tabs && again.active_tab == b.active_tab && again.current == (TabView {
                sort_column,
                sort_ascending,
                ..b.current
            })
        }),
        ({
            let s = b.saved();
            let again = BrowserView::started(
                None,
                Some(s.tabs),
                s.active_tab,
                last,
                sort_column,
                sort_ascending,
            );
            again.tabs == s.tabs && again.active_tab == b.active_tab && again.current == (TabView {
                sort_column,
                sort_ascending,
                ..b.current
            })
        }),
{
}

// ---------------------------------------------------------------------------
// Breadcrumbs
// ---------------------------------------------------------------------------

/// The folders on the way to a path, with their names.
pub open spec fn breadcrumbs(p: PathView) -> Seq<(PathView, Seq<char>)>
    decreases p.names.len(),
{
    if p.names.len() == 0 {
        Seq::empty()
    } else {
        let above = breadcrumbs(p.above((p.names.len() - 1) as nat));
        if is_entry_name(p.names.last()) {
            above.push((p, p.names.last()))
        } else {
            above
        }
    }
}

/// The views of a list of breadcrumbs.
pub open spec fn crumb_views(v: Seq<(FsPath, String)>) -> Seq<(PathView, Seq<char>)> {
    Seq::new(v.len(), |i: int| (v[i].0@, v[i].1@))
}

/// The folders on the way to `path`, with their names.
pub fn get_breadcrumbs(path: &FsPath) -> (r: Vec<(FsPath, String)>)
    ensures
        crumb_views(r@) == breadcrumbs(path@),
{
    let mut r: Vec<(FsPath, String)> = Vec::new();
    assert(crumb_views(r@) =~= breadcrumbs(path@.above(0)));
    let n: usize = path.names.len();
    for i in 0..n
        invariant
            n == path@.names.len(),
            crumb_views(r@) == breadcrumbs(
                if i < n {
                    path@.above(i as nat)
                } else {
                    path@
                },
            ),
    {
        let ghost before = crumb_views(r@);
        let here = if i + 1 < n {
            path.above(i + 1)
        } else {
            path.copy()
        };
        assert(here@.names =~= path@.names.take(i + 1));
        assert(here@.above(i as nat) =~= path@.above(i as nat)) by {
            assert(here@.names.take(i as int) =~= path@.names.take(i as int));
            if path@.spelling is Some {
                assert(Seq::new(i as nat, |k: int| here@.gap(k)) =~= Seq::new(
                    i as nat,
                    |k: int| path@.gap(k),
                ));
            }
        }
        let ghost view = here@;
        assert(view.names.last() == path.names@[i as int]@);
        if names_entry(path.names[i].as_str()) {
            r.push((here, copy_text(path.names[i].as_str())));
            assert(crumb_views(r@) =~= before.push((view, view.names.last())));
        }
    }
    if n == 0 {
        assert(breadcrumbs(path@) =~= Seq::empty());
    }
    r
}

/// Every breadcrumb leads to a folder on the way to the path, and is labelled
/// with that folder's name.
pub proof fn breadcrumbs_lead_to_ancestors(p: PathView, i: int)
    requires
        0 <= i < breadcrumbs(p).len(),
    ensures
        p.starts_with(breadcrumbs(p)[i].0),
        breadcrumbs(p)[i].0.file_name() == Some(breadcrumbs(p)[i].1),
    decreases p.names.len(),
{
    let up = p.above((p.names.len() - 1) as nat);
    let above = breadcrumbs(up);
    if i < above.len() {
        breadcrumbs_lead_to_ancestors(up, i);
        assert(breadcrumbs(p)[i] == above[i]);
        let a = above[i].0;
        assert(p.names.take(a.names.len() as int) =~= up.names.take(a.names.len() as int));
    } else {
        assert(p.names.take(p.names.len() as int) =~= p.names);
    }
}

/// What is navigated to is shown, in the tab that was shown; what was shown before is the first
/// that the way back leads to, and the way forward is gone.
pub proof fn what_is_navigated_to_is_shown(b: BrowserView, path: PathView, slow: bool)
    requires
        b.sound(),
    ensures
        b.navigated(path, slow).current.path == path,
        b.navigated(path, slow).active_tab == b.active_tab,
        b.navigated(path, slow).tabs.len() == b.tabs.len(),
        b.navigated(path, slow).tabs[b.active_tab as int] == b.navigated(path, slow).current,
        forall|i: int|
            0 <= i < b.tabs.len() && i != b.active_tab ==> #[trigger] b.navigated(
                path,
                slow,
            ).tabs[i] == b.tabs[i],
        b.navigated(path, slow).current.filter == b.current.filter,
        b.navigated(path, slow).loading_path == if slow {
            Some(path)
        } else {
            None
        },
        path.names != b.current.path.names ==> b.navigated(path, slow).current.back_history
            == b.current.back_history.push(b.current.path) && b.navigated(
            path,
            slow,
        ).current.forward_history.len() == 0,
{
}

/// Going back shows the folder that was left last, and going forward the one that was left by
/// going back; at either end nothing happens.
pub proof fn history_leads_to_what_was_shown(
    b: BrowserView,
    older: Seq<PathView>,
    newer: Seq<PathView>,
    p: PathView,
    slow: bool,
)
    requires
        b.sound(),
    ensures
        ({
            let c = BrowserView {
                current: TabView { back_history: older.push(p), ..b.current },
                ..b
            };
            let d = c.went_back(slow);
            d.current.path == p && d.current.back_history == older && d.current.forward_history
                == b.current.forward_history.push(b.current.path)
        }),
        ({
            let c = BrowserView {
                current: TabView { forward_history: newer.push(p), ..b.current },
                ..b
            };
            let d = c.went_forward(slow);
            d.current.path == p && d.current.forward_history == newer && d.current.back_history
                == b.current.back_history.push(b.current.path)
        }),
        b.current.back_history.len() == 0 ==> b.went_back(slow) == b,
        b.current.forward_history.len() == 0 ==> b.went_forward(slow) == b,
{
    assert(older.push(p).drop_last() =~= older);
    assert(newer.push(p).drop_last() =~= newer);
}

/// A tab that is switched to is shown as it was left; a new tab stands behind all others and is
/// shown, without a history; no other tab changes.
pub proof fn a_tab_is_shown_as_it_was_left(b: BrowserView, i: nat, path: PathView)
    requires
        b.sound(),
    ensures
        i < b.tabs.len() && i != b.active_tab ==> b.switched(i).current == b.tabs[i as int]
            && b.switched(i).active_tab == i && b.switched(i).tabs == b.tabs.update(
            b.active_tab as int,
            b.current,
        ),
        i >= b.tabs.len() || i == b.active_tab ==> b.switched(i) == b,
        ({
            let n = b.with_new_tab(path);
            &&& n.current.path == path
            &&& n.current.back_history.len() == 0
            &&& n.current.forward_history.len() == 0
            &&& n.current.filter.len() == 0
            &&& n.active_tab == b.tabs.len()
            &&& n.tabs == b.tabs.update(b.active_tab as int, b.current).push(n.current)
        }),
{
}

/// Closing the tab that is shown shows the one behind it, or the one before it where it was the
/// last; the only tab is not closed.
pub proof fn closing_the_shown_tab_shows_its_neighbor(b: BrowserView)
    requires
        b.sound(),
    ensures
        b.tabs.len() == 1 ==> b.without_tab(b.active_tab) == b,
        b.tabs.len() > 1 ==> b.without_tab(b.active_tab).tabs == b.tabs.remove(b.active_tab as int),
        b.active_tab + 1 < b.tabs.len() ==> b.without_tab(b.active_tab).current
            == b.tabs[b.active_tab as int + 1],
        b.active_tab + 1 == b.tabs.len() && b.tabs.len() > 1 ==> b.without_tab(
            b.active_tab,
        ).current == b.tabs[b.active_tab as int - 1],
        b.tabs.len() > 1 ==> ({
            let c = b.without_tab(b.active_tab);
            c.current == c.tabs[c.active_tab as int]
        }),
{
}

/// A session that was asked for goes before the tabs that were kept, and those before the last
/// folder; a session without tabs shows the last folder.
pub proof fn a_start_shows_what_was_asked_for(
    tabs: Seq<TabView>,
    active: nat,
    kept: Option<Seq<TabView>>,
    kept_active: nat,
    last: PathView,
    column: SortColumn,
    ascending: bool,
)
    requires
        tabs.len() > 0,
    ensures
        ({
            let b = BrowserView::started(
                Some((tabs, active)),
                kept,
                kept_active,
                last,
                column,
                ascending,
            );
            b.tabs == tabs && b.current.path == tabs[if active < tabs.len() {
                active as int
            } else {
                tabs.len() - 1
            }].path && b.current.sort_column == column && b.current.sort_ascending == ascending
        }),
        BrowserView::started(None, Some(tabs), active, last, column, ascending)
            == BrowserView::started(
            Some((tabs, active)),
            kept,
            kept_active,
            last,
            column,
            ascending,
        ),
        ({
            let b = BrowserView::started(None, None, kept_active, last, column, ascending);
            b.tabs.len() == 1 && b.current.path == last && b.current.back_history.len() == 0
        }),
        BrowserView::started(Some((Seq::empty(), active)), kept, kept_active, last, column, ascending)
            == BrowserView::started(None, None, kept_active, last, column, ascending),
{
}

/// The breadcrumbs of a path are its names, each with the folder that the names up to it lead to.
pub proof fn breadcrumbs_are_the_names_of_the_path(p: PathView, i: int)
    requires
        forall|k: int|
            0 <= k < p.names.len() ==> #[trigger] p.names[k] != seq!['.'] && p.names[k] != seq![
                '.',
                '.',
            ],
        0 <= i < p.names.len(),
    ensures
        breadcrumbs(p).len() == p.names.len(),
        breadcrumbs(p)[i].1 == p.names[i],
        breadcrumbs(p)[i].0.names == p.names.take(i + 1),
        breadcrumbs(p)[i].0.prefix == p.prefix,
        breadcrumbs(p)[i].0.rooted == p.rooted,
    decreases p.names.len(),
{
    let n = p.names.len();
    let up = p.above((n - 1) as nat);
    assert forall|k: int| 0 <= k < up.names.len() implies #[trigger] up.names[k] != seq!['.']
        && up.names[k] != seq!['.', '.'] by {
        assert(up.names[k] == p.names[k]);
    }
    assert(p.names[n - 1] != seq!['.']);
    if n == 1 {
        assert(breadcrumbs(up).len() == 0);
    } else {
        breadcrumbs_are_the_names_of_the_path(
            up,
            if i < n - 1 {
                i
            } else {
                0
            },
        );
    }
    if i < n - 1 {
        assert(breadcrumbs(p)[i] == breadcrumbs(up)[i]);
        assert(up.names.take(i + 1) =~= p.names.take(i + 1));
    } else {
        assert(p.names.take(n as int) =~= p.names);
    }
}

/// A tab is dragged from the moment that the pointer moves off with it, and a press alone drags
/// none.
pub proof fn a_press_alone_drags_nothing(pressed_on: Option<usize>, at: usize, held: bool, moving: bool)
    ensures
        tab_in_hand(None, pressed_on, true, true) == pressed_on,
        tab_in_hand(None, pressed_on, held, false) is None,
        tab_in_hand(None, pressed_on, false, moving) is None,
        tab_in_hand(Some(at), pressed_on, held, moving) == Some(at),
{
}

} // verus!

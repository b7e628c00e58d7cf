//! The switcher's state and the decisions it takes on each frame: when loading
//! ends, what a key or a click does, and which window to focus.
use vstd::prelude::*;
use crate::ranking::{is_ranking, rank_windows};
use crate::window::{views_of, WindowInfo};

verus! {

/// How long the switcher waits for the window list, in nanoseconds.
pub const LOAD_TIMEOUT_NANOS: u64 = 2000000000;

/// A key press that the switcher reacts to.
#[derive(Clone, Copy, Debug, PartialEq, Eq)]
pub enum KeyInput {
    /// Close without focusing anything.
    Cancel,
    /// Focus the selected window and close.
    Commit,
    /// Move the selection down one row, wrapping around.
    Next,
    /// Move the selection up one row, wrapping around.
    Previous,
}

/// What the overlay is to do after an input.
#[derive(Clone, Debug, PartialEq, Eq)]
pub enum FrameAction {
    /// Keep running.
    Stay,
    /// Close the overlay.
    Close,
    /// Ask the window manager to focus the window with this id, then close.
    FocusAndClose(String),
}

/// The row after `s` in a list of `len` rows, wrapping to the first.
pub open spec fn next_position(s: int, len: int) -> int {
    (s + 1) % len
}

/// The row before `s` in a list of `len` rows, wrapping to the last.
pub open spec fn previous_position(s: int, len: int) -> int {
    if s == 0 {
        len - 1
    } else {
        s - 1
    }
}

/// The switcher's state.
pub struct AerospaceWindowSwitcher {
    /// Every window, in the order the window manager listed them.
    pub windows: Vec<WindowInfo>,
    /// The text typed so far.
    pub search_query: String,
    /// Indices into `windows`, in display order.
    pub filtered_windows: Vec<usize>,
    /// Index into `filtered_windows` of the highlighted row.
    pub selected_index: Option<usize>,
    /// Whether the window list is still awaited.
    pub is_loading: bool,
    /// When loading started, in nanoseconds on the caller's monotonic clock.
    pub load_start_nanos: u64,
    /// The id of the window chosen for focus, not yet handed out.
    pub window_to_focus: Option<String>,
}

impl AerospaceWindowSwitcher {
    /// Every displayed row names a window, and the selection, if any, names a
    /// row whenever there is one.
    pub open spec fn wf(&self) -> bool {
        &&& forall|k: int|
            0 <= k < self.filtered_windows@.len() ==> #[trigger] self.filtered_windows@[k]
                < self.windows@.len()
        &&& (self.filtered_windows@.len() > 0 && self.selected_index is Some)
            ==> self.selected_index->0 < self.filtered_windows@.len()
    }

    /// The id of the window that the selection resolves to, if any.
    pub open spec fn selected_window_id(&self) -> Option<Seq<char>> {
        match self.selected_index {
            Some(s) => if s < self.filtered_windows@.len() && self.filtered_windows@[s as int]
                < self.windows@.len() {
                Some(self.windows@[self.filtered_windows@[s as int] as int].id@)
            } else {
                None
            },
            None => None,
        }
    }

    /// The selection as a row number, the first row when there is none.
    pub open spec fn selected_row(&self) -> int {
        match self.selected_index {
            Some(s) => s as int,
            None => 0,
        }
    }

    /// `self.filtered_windows` ranks `self.windows` for `self.search_query`,
    /// and the first row is selected.
    pub open spec fn is_filtered(&self) -> bool {
        &&& is_ranking(views_of(self.windows@), self.search_query@, self.filtered_windows@)
        &&& self.selected_index == Some(0usize)
    }

    /// Whether the state is well formed, as [`Self::wf`] defines it.
    pub fn is_well_formed(&self) -> (r: bool)
        ensures
            r == self.wf(),
    {
        let n = self.filtered_windows.len();
        let mut k: usize = 0;
        while k < n
            invariant
                k <= n == self.filtered_windows@.len(),
                forall|m: int| 0 <= m < k ==> #[trigger] self.filtered_windows@[m] < self.windows@.len(),
            decreases n - k,
        {
            if self.filtered_windows[k] >= self.windows.len() {
                return false;
            }
            k = k + 1;
        }
        match self.selected_index {
            Some(s) => n == 0 || s < n,
            None => true,
        }
    }

    /// A switcher that starts waiting for the window list at `now_nanos`.
    pub fn new(now_nanos: u64) -> (r: Self)
        ensures
            r.wf(),
            r.windows@.len() == 0,
            r.search_query@.len() == 0,
            r.filtered_windows@.len() == 0,
            r.selected_index is None,
            r.is_loading,
            r.load_start_nanos == now_nanos,
            r.window_to_focus is None,
    {
        AerospaceWindowSwitcher {
            windows: Vec::new(),
            search_query: String::new(),
            filtered_windows: Vec::new(),
            selected_index: None,
            is_loading: true,
            load_start_nanos: now_nanos,
            window_to_focus: None,
        }
    }

    /// Whether more than the loading timeout has passed between the start of
    /// loading and `now_nanos`.
    pub fn is_loading_timed_out(&self, now_nanos: u64) -> (r: bool)
        ensures
            r == (now_nanos - self.load_start_nanos > LOAD_TIMEOUT_NANOS),
    {
        now_nanos > self.load_start_nanos && now_nanos - self.load_start_nanos
            > LOAD_TIMEOUT_NANOS
    }

    /// Ranks the windows for the current query and selects the first row.
    pub fn filter_windows(&mut self)
        ensures
            final(self).wf(),
            final(self).is_filtered(),
            final(self).windows == old(self).windows,
            final(self).search_query == old(self).search_query,
            final(self).is_loading == old(self).is_loading,
            final(self).load_start_nanos == old(self).load_start_nanos,
            final(self).window_to_focus == old(self).window_to_focus,
    {
        self.filtered_windows = rank_windows(&self.windows, self.search_query.as_str());
        self.selected_index = Some(0);
        proof {
            let ws = views_of(self.windows@);
            let q = self.search_query@;
            let r = self.filtered_windows@;
            if q.len() == 0 {
                assert forall|k: int| 0 <= k < r.len() implies #[trigger] r[k]
                    < self.windows@.len() by {
                    assert(r[k] == k as usize);
                }
            } else {
                assert forall|k: int| 0 <= k < r.len() implies #[trigger] r[k]
                    < self.windows@.len() by {
                    assert(crate::ranking::scores_of(ws, q)[r[k] as int] is Some);
                }
            }
        }
    }

    /// Replaces the query; when the text changed, ranks again and selects the
    /// first row.
    pub fn set_search_query(&mut self, query: String)
        requires
            old(self).wf(),
        ensures
            final(self).wf(),
            final(self).search_query@ == query@,
            old(self).search_query@ != query@ ==> final(self).is_filtered(),
            old(self).search_query@ == query@ ==> final(self).filtered_windows
                == old(self).filtered_windows && final(self).selected_index
                == old(self).selected_index,
            final(self).windows == old(self).windows,
            final(self).is_loading == old(self).is_loading,
            final(self).load_start_nanos == old(self).load_start_nanos,
            final(self).window_to_focus == old(self).window_to_focus,
    {
        if self.search_query != query {
            self.search_query = query;
            self.filter_windows();
        }
    }

    /// One poll while loading: takes the fetched list if it came, or gives up
    /// waiting after the timeout; either way loading ends and the windows are
    /// ranked. Does nothing once loading has ended.
    pub fn poll_loading(&mut self, fetched: Option<Vec<WindowInfo>>, now_nanos: u64)
        requires
            old(self).wf(),
        ensures
            final(self).wf(),
            final(self).search_query == old(self).search_query,
            final(self).load_start_nanos == old(self).load_start_nanos,
            final(self).window_to_focus == old(self).window_to_focus,
            !old(self).is_loading ==> *final(self) == *old(self),
            old(self).is_loading ==> match fetched {
                Some(ws) => !final(self).is_loading && final(self).windows == ws
                    && final(self).is_filtered(),
                None => if now_nanos - old(self).load_start_nanos > LOAD_TIMEOUT_NANOS {
                    !final(self).is_loading && final(self).windows == old(self).windows
                        && final(self).is_filtered()
                } else {
                    *final(self) == *old(self)
                },
            },
    {
        if !self.is_loading {
            return;
        }
        let update = match fetched {
            Some(ws) => {
                self.windows = ws;
                true
            },
            None => self.is_loading_timed_out(now_nanos),
        };
        if update {
            self.is_loading = false;
            self.filter_windows();
        }
    }

    /// Moves the selection to the next row, from the last to the first; does
    /// nothing when no row is shown.
    pub fn select_next(&mut self)
        requires
            old(self).wf(),
        ensures
            final(self).wf(),
            old(self).filtered_windows@.len() > 0 ==> final(self).selected_index == Some(
                next_position(old(self).selected_row(), old(self).filtered_windows@.len() as int)
                    as usize,
            ),
            old(self).filtered_windows@.len() == 0 ==> final(self).selected_index == old(
                self,
            ).selected_index,
            final(self).windows == old(self).windows,
            final(self).search_query == old(self).search_query,
            final(self).filtered_windows == old(self).filtered_windows,
            final(self).is_loading == old(self).is_loading,
            final(self).load_start_nanos == old(self).load_start_nanos,
            final(self).window_to_focus == old(self).window_to_focus,
    {
        let len = self.filtered_windows.len();
        if len > 0 {
            let current: usize = match self.selected_index {
                Some(s) => s,
                None => 0,
            };
            self.selected_index = Some((current + 1) % len);
        }
    }

    /// Moves the selection to the previous row, from the first to the last;
    /// does nothing when no row is shown. With no selection, the first row is
    /// selected.
    pub fn select_previous(&mut self)
        requires
            old(self).wf(),
        ensures
            final(self).wf(),
            old(self).filtered_windows@.len() > 0 ==> final(self).selected_index == Some(
                (match old(self).selected_index {
                    Some(s) => previous_position(
                        s as int,
                        old(self).filtered_windows@.len() as int,
                    ),
                    None => 0,
                }) as usize,
            ),
            old(self).filtered_windows@.len() == 0 ==> final(self).selected_index == old(
                self,
            ).selected_index,
            final(self).windows == old(self).windows,
            final(self).search_query == old(self).search_query,
            final(self).filtered_windows == old(self).filtered_windows,
            final(self).is_loading == old(self).is_loading,
            final(self).load_start_nanos == old(self).load_start_nanos,
            final(self).window_to_focus == old(self).window_to_focus,
    {
        let len = self.filtered_windows.len();
        if len > 0 {
            self.selected_index = Some(
                match self.selected_index {
                    Some(s) => if s == 0 {
                        len - 1
                    } else {
                        s - 1
                    },
                    None => 0,
                },
            );
        }
    }

    /// Resolves the selection to a window and records its id for focus.
    /// Returns whether the selection named a window.
    pub fn focus_selected_window(&mut self) -> (r: bool)
        requires
            old(self).wf(),
        ensures
            final(self).wf(),
            r == old(self).selected_window_id() is Some,
            r ==> final(self).window_to_focus is Some && final(self).window_to_focus->0@
                == old(self).selected_window_id()->0,
            !r ==> final(self).window_to_focus == old(self).window_to_focus,
            final(self).windows == old(self).windows,
            final(self).search_query == old(self).search_query,
            final(self).filtered_windows == old(self).filtered_windows,
            final(self).selected_index == old(self).selected_index,
            final(self).is_loading == old(self).is_loading,
            final(self).load_start_nanos == old(self).load_start_nanos,
    {
        if let Some(selected) = self.selected_index {
            if selected < self.filtered_windows.len() {
                let idx = self.filtered_windows[selected];
                self.window_to_focus = Some(self.windows[idx].id.clone());
                return true;
            }
        }
        false
    }

    /// Hands out the id recorded for focus, leaving none.
    pub fn take_window_to_focus(&mut self) -> (r: Option<String>)
        ensures
            r == old(self).window_to_focus,
            final(self).window_to_focus is None,
            final(self).windows == old(self).windows,
            final(self).search_query == old(self).search_query,
            final(self).filtered_windows == old(self).filtered_windows,
            final(self).selected_index == old(self).selected_index,
            final(self).is_loading == old(self).is_loading,
            final(self).load_start_nanos == old(self).load_start_nanos,
    {
        self.window_to_focus.take()
    }

    /// Commits the selection: when it names a window, the result asks to focus
    /// that window's id and close; otherwise nothing happens.
    pub fn commit(&mut self) -> (r: FrameAction)
        requires
            old(self).wf(),
        ensures
            final(self).wf(),
            match old(self).selected_window_id() {
                Some(id) => r matches FrameAction::FocusAndClose(f) && f@ == id,
                None => r is Stay,
            },
            old(self).selected_window_id() is Some ==> final(self).window_to_focus is None,
            old(self).selected_window_id() is None ==> final(self).window_to_focus == old(
                self,
            ).window_to_focus,
            final(self).windows == old(self).windows,
            final(self).search_query == old(self).search_query,
            final(self).filtered_windows == old(self).filtered_windows,
            final(self).selected_index == old(self).selected_index,
            final(self).is_loading == old(self).is_loading,
    {
        if self.focus_selected_window() {
            match self.take_window_to_focus() {
                Some(id) => FrameAction::FocusAndClose(id),
                None => FrameAction::Stay,
            }
        } else {
            FrameAction::Stay
        }
    }

    /// Reacts to one key press: cancel closes, commit focuses the selected
    /// window and closes, and next and previous move the selection.
    pub fn handle_key(&mut self, key: KeyInput) -> (r: FrameAction)
        requires
            old(self).wf(),
        ensures
            final(self).wf(),
            final(self).windows == old(self).windows,
            final(self).search_query == old(self).search_query,
            final(self).filtered_windows == old(self).filtered_windows,
            final(self).is_loading == old(self).is_loading,
            match key {
                KeyInput::Cancel => r is Close && *final(self) == *old(self),
                KeyInput::Commit => final(self).selected_index == old(self).selected_index
                    && (match old(self).selected_window_id() {
                    Some(id) => r matches FrameAction::FocusAndClose(f) && f@ == id,
                    None => r is Stay,
                }),
                KeyInput::Next => r is Stay && (old(self).filtered_windows@.len() > 0
                    ==> final(self).selected_index == Some(
                    next_position(old(self).selected_row(), old(self).filtered_windows@.len() as int)
                        as usize,
                )),
                KeyInput::Previous => r is Stay && (old(self).filtered_windows@.len() > 0
                    ==> final(self).selected_index == Some(
                    (match old(self).selected_index {
                        Some(s) => previous_position(
                            s as int,
                            old(self).filtered_windows@.len() as int,
                        ),
                        None => 0,
                    }) as usize,
                )),
            },
    {
        match key {
            KeyInput::Cancel => FrameAction::Close,
            KeyInput::Commit => self.commit(),
            KeyInput::Next => {
                self.select_next();
                FrameAction::Stay
            },
            KeyInput::Previous => {
                self.select_previous();
                FrameAction::Stay
            },
        }
    }

    /// A click on the displayed row `row`: selects it and commits it. A row
    /// past the end of the list does nothing.
    pub fn click_row(&mut self, row: usize) -> (r: FrameAction)
        requires
            old(self).wf(),
        ensures
            final(self).wf(),
            final(self).windows == old(self).windows,
            final(self).filtered_windows == old(self).filtered_windows,
            row < old(self).filtered_windows@.len() ==> final(self).selected_index == Some(row)
                && (r matches FrameAction::FocusAndClose(f) && f@ == old(
                self,
            ).windows@[old(self).filtered_windows@[row as int] as int].id@),
            row >= old(self).filtered_windows@.len() ==> r is Stay && *final(self) == *old(self),
    {
        if row < self.filtered_windows.len() {
            self.selected_index = Some(row);
            self.commit()
        } else {
            FrameAction::Stay
        }
    }
}

/// Where `n` moves to the next row lead from row `s` in a list of `len` rows.
pub open spec fn next_times(s: int, len: int, n: nat) -> int
    decreases n,
{
    if n == 0 {
        s
    } else {
        next_times(next_position(s, len), len, (n - 1) as nat)
    }
}

/// Where `n` moves to the previous row lead from row `s` in a list of `len` rows.
pub open spec fn previous_times(s: int, len: int, n: nat) -> int
    decreases n,
{
    if n == 0 {
        s
    } else {
        previous_times(previous_position(s, len), len, (n - 1) as nat)
    }
}

proof fn lemma_next_times_add(s: int, len: int, a: nat, b: nat)
    ensures
        next_times(s, len, a + b) == next_times(next_times(s, len, a), len, b),
    decreases a,
{
    if a > 0 {
        lemma_next_times_add(next_position(s, len), len, (a - 1) as nat, b);
        assert((a + b - 1) as nat == (a - 1) as nat + b);
    }
}

proof fn lemma_previous_times_add(s: int, len: int, a: nat, b: nat)
    ensures
        previous_times(s, len, a + b) == previous_times(previous_times(s, len, a), len, b),
    decreases a,
{
    if a > 0 {
        lemma_previous_times_add(previous_position(s, len), len, (a - 1) as nat, b);
        assert((a + b - 1) as nat == (a - 1) as nat + b);
    }
}

proof fn lemma_next_times_climb(s: int, len: int, n: nat)
    requires
        0 <= s,
        s + n < len,
    ensures
        next_times(s, len, n) == s + n,
    decreases n,
{
    if n > 0 {
        vstd::arithmetic::div_mod::lemma_small_mod((s + 1) as nat, len as nat);
        lemma_next_times_climb(s + 1, len, (n - 1) as nat);
    }
}

proof fn lemma_previous_times_descend(s: int, len: int, n: nat)
    requires
        n <= s,
    ensures
        previous_times(s, len, n) == s - n,
    decreases n,
{
    if n > 0 {
        lemma_previous_times_descend(s - 1, len, (n - 1) as nat);
    }
}

/// Moving to the next row as many times as there are rows comes back to the
/// row it started from.
pub proof fn lemma_next_wraps(s: int, len: int)
    requires
        0 <= s < len,
    ensures
        next_times(s, len, len as nat) == s,
{
    let a = (len - 1 - s) as nat;
    lemma_next_times_add(s, len, a, (s + 1) as nat);
    assert(a + (s + 1) as nat == len as nat);
    lemma_next_times_climb(s, len, a);
    vstd::arithmetic::div_mod::lemma_mod_self_0(len);
    assert(next_position(len - 1, len) == 0);
    lemma_next_times_climb(0, len, s as nat);
}

/// Moving to the previous row as many times as there are rows comes back to
/// the row it started from.
pub proof fn lemma_previous_wraps(s: int, len: int)
    requires
        0 <= s < len,
    ensures
        previous_times(s, len, len as nat) == s,
{
    let a = s as nat;
    lemma_previous_times_add(s, len, a, (len - s) as nat);
    assert(a + (len - s) as nat == len as nat);
    lemma_previous_times_descend(s, len, a);
    assert(previous_position(0, len) == len - 1);
    lemma_previous_times_descend(len - 1, len, (len - 1 - s) as nat);
}

} // verus!

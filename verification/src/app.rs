//! Central interactive state: the task collection, the selection cursor, the
//! modal input mode with its draft buffers, tab bookkeeping, and the dirty
//! flag that ties mutation to persistence.
use crate::task::TaskView;
use crate::todolist::TodoList;
use vstd::prelude::*;

verus! {

/// Tab header state.
#[derive(Debug)]
pub struct Tabs {
    pub titles: Vec<&'static str>,
    pub index: usize,
}

/// Mathematical image of [`Tabs`].
#[verifier::ext_equal]
pub ghost struct TabsView {
    pub titles: Seq<Seq<char>>,
    pub index: int,
}

impl View for Tabs {
    type V = TabsView;

    open spec fn view(&self) -> TabsView {
        TabsView { titles: self.titles.deep_view(), index: self.index as int }
    }
}

impl Tabs {
    /// A tab bar over the given titles, with the first tab selected.
    pub fn new(titles: Vec<&'static str>) -> (r: Tabs)
        ensures
            r@.titles == titles.deep_view(),
            r@.index == 0,
    {
        Tabs { titles, index: 0 }
    }

    /// Advance to the next tab, wrapping around.
    pub fn next(&mut self)
        requires
            0 <= old(self)@.index < old(self)@.titles.len(),
        ensures
            final(self)@.titles == old(self)@.titles,
            final(self)@.index == (old(self)@.index + 1) % old(self)@.titles.len() as int,
    {
        let n = self.titles.len();
        self.index = (self.index + 1) % n;
    }

    /// Step back to the previous tab, wrapping around.
    pub fn prev(&mut self)
        requires
            0 <= old(self)@.index < old(self)@.titles.len(),
        ensures
            final(self)@.titles == old(self)@.titles,
            final(self)@.index == if old(self)@.index == 0 {
                old(self)@.titles.len() - 1
            } else {
                old(self)@.index - 1
            },
    {
        self.index = if self.index == 0 {
            self.titles.len() - 1
        } else {
            self.index - 1
        };
    }
}

/// The two modes of the state machine.
#[derive(Debug, Clone, Copy, PartialEq, Eq, Structural)]
pub enum InputMode {
    Normal,
    Insert,
}

/// The draft field that currently receives text in Insert mode.
#[derive(Debug, Clone, Copy, PartialEq, Eq, Structural)]
pub enum InsertField {
    Title,
    Notes,
    Time,
    Priority,
}

/// Map view selector in the world tab.
#[derive(Debug, Clone, Copy, PartialEq, Eq, Structural)]
pub enum MapView {
    World,
    Nyc,
}

/// The ephemeral status message; renderers turn each variant into text.
#[derive(Debug, Clone, Copy, PartialEq, Eq, Structural)]
pub enum StatusLine {
    Blank,
    Expanded,
    Collapsed,
    Toggled,
    Deleted,
    Saved,
    Added,
    Cancelled,
    TitleEmpty,
    MapWorld,
    MapNyc,
    ChartOn,
    ChartOff,
    GraphicsEnhanced,
    GraphicsNormal,
}

/// Central interactive state. Mutation goes through the dispatcher so that
/// the selection cursor stays consistent with the visible sequence.
#[derive(Debug)]
pub struct App {
    pub list: TodoList,
    pub selected: usize,
    pub input_mode: InputMode,
    pub insert_field: InsertField,
    pub draft_title: Vec<char>,
    pub draft_priority: i8,
    pub draft_notes: Vec<char>,
    pub draft_timeframe: Vec<char>,
    pub status_line: StatusLine,
    pub dirty: bool,
    pub tabs: Tabs,
    pub show_chart: bool,
    pub enhanced_graphics: bool,
    pub expanded: bool,
    pub map_view: MapView,
}

/// Mathematical image of [`App`].
#[verifier::ext_equal]
pub ghost struct AppView {
    pub list: Seq<TaskView>,
    pub selected: int,
    pub input_mode: InputMode,
    pub insert_field: InsertField,
    pub draft_title: Seq<char>,
    pub draft_priority: int,
    pub draft_notes: Seq<char>,
    pub draft_timeframe: Seq<char>,
    pub status_line: StatusLine,
    pub dirty: bool,
    pub tabs: TabsView,
    pub show_chart: bool,
    pub enhanced_graphics: bool,
    pub expanded: bool,
    pub map_view: MapView,
}

impl View for App {
    type V = AppView;

    open spec fn view(&self) -> AppView {
        AppView {
            list: self.list@,
            selected: self.selected as int,
            input_mode: self.input_mode,
            insert_field: self.insert_field,
            draft_title: self.draft_title@,
            draft_priority: self.draft_priority as int,
            draft_notes: self.draft_notes@,
            draft_timeframe: self.draft_timeframe@,
            status_line: self.status_line,
            dirty: self.dirty,
            tabs: self.tabs@,
            show_chart: self.show_chart,
            enhanced_graphics: self.enhanced_graphics,
            expanded: self.expanded,
            map_view: self.map_view,
        }
    }
}

/// Well-formedness: the cursor sits inside the visible sequence (or at zero
/// when it is empty), the tab index is in range, and the draft priority stays
/// in `[1, 5]`.
pub open spec fn wf(v: AppView) -> bool {
    &&& 0 <= v.selected
    &&& (v.list.len() == 0 ==> v.selected == 0)
    &&& (v.list.len() > 0 ==> v.selected < v.list.len())
    &&& v.tabs.titles.len() > 0
    &&& 0 <= v.tabs.index < v.tabs.titles.len()
    &&& 1 <= v.draft_priority <= 5
}

/// The cursor after one step down: forward by one, never past the end.
pub open spec fn next_sel(v: AppView) -> int {
    if v.selected + 1 < v.list.len() {
        v.selected + 1
    } else {
        v.selected
    }
}

/// The cursor after one step up: back by one, never before zero.
pub open spec fn prev_sel(v: AppView) -> int {
    if v.selected > 0 {
        v.selected - 1
    } else {
        v.selected
    }
}

/// The cursor pulled back into `[0, len)`, or `0` when the sequence is empty.
pub open spec fn clamp_sel(len: int, sel: int) -> int {
    if len == 0 {
        0
    } else if sel >= len {
        len - 1
    } else {
        sel
    }
}

impl App {
    /// Fresh state over a loaded collection: Normal mode, cursor at zero,
    /// clean drafts, nothing dirty.
    pub fn new(list: TodoList) -> (a: App)
        ensures
            a@.list == list@,
            a@.selected == 0,
            a@.input_mode == InputMode::Normal,
            a@.insert_field == InsertField::Title,
            a@.draft_title == Seq::<char>::empty(),
            a@.draft_priority == 1,
            a@.draft_notes == Seq::<char>::empty(),
            a@.draft_timeframe == Seq::<char>::empty(),
            a@.status_line == StatusLine::Blank,
            a@.dirty == false,
            a@.tabs.titles.len() == 3,
            a@.tabs.index == 0,
            a@.show_chart == true,
            a@.enhanced_graphics == true,
            a@.expanded == false,
            a@.map_view == MapView::World,
            wf(a@),
    {
        let titles = vec!["Todos", "Dash", "World"];
        let a = App {
            list,
            selected: 0,
            input_mode: InputMode::Normal,
            insert_field: InsertField::Title,
            draft_title: Vec::new(),
            draft_priority: 1,
            draft_notes: Vec::new(),
            draft_timeframe: Vec::new(),
            status_line: StatusLine::Blank,
            dirty: false,
            tabs: Tabs::new(titles),
            show_chart: true,
            enhanced_graphics: true,
            expanded: false,
            map_view: MapView::World,
        };
        proof {
            assert(a@.draft_title =~= Seq::<char>::empty());
            assert(a@.draft_notes =~= Seq::<char>::empty());
            assert(a@.draft_timeframe =~= Seq::<char>::empty());
        }
        a
    }

    /// The backing positions that pass the filter, in order. All tasks are
    /// shown, so this is every position.
    pub fn visible_indices(&self) -> (r: Vec<usize>)
        ensures
            r@.len() == self@.list.len(),
            forall|i: int| 0 <= i < r@.len() ==> r@[i] == i,
    {
        let n = self.list.len();
        let mut r: Vec<usize> = Vec::new();
        let mut i: usize = 0;
        while i < n
            invariant
                i <= n,
                n == self@.list.len(),
                r@.len() == i,
                forall|j: int| 0 <= j < i ==> r@[j] == j,
            decreases n - i,
        {
            r.push(i);
            i = i + 1;
        }
        r
    }

    /// Move the cursor one step down; no-op at the end.
    pub fn select_next(&mut self)
        requires
            wf(old(self)@),
        ensures
            final(self)@ == (AppView { selected: next_sel(old(self)@), ..old(self)@ }),
            wf(final(self)@),
    {
        let len = self.list.len();
        if len > 0 && self.selected + 1 < len {
            self.selected = self.selected + 1;
        }
    }

    /// Move the cursor one step up; no-op at the start.
    pub fn select_prev(&mut self)
        ensures
            final(self)@ == (AppView { selected: prev_sel(old(self)@), ..old(self)@ }),
    {
        if self.selected > 0 {
            self.selected = self.selected - 1;
        }
    }

    /// Pull the cursor back into the visible range after a structural change.
    pub fn clamp_selection(&mut self)
        ensures
            final(self)@ == (AppView {
                selected: clamp_sel(old(self)@.list.len() as int, old(self)@.selected),
                ..old(self)@
            }),
    {
        let len = self.list.len();
        if len == 0 {
            self.selected = 0;
        } else if self.selected >= len {
            self.selected = len - 1;
        }
    }
}

/// `p` pulled into the display range `[1, 5]`.
pub open spec fn clamped_priority(p: int) -> int {
    if p < 1 {
        1
    } else if p > 5 {
        5
    } else {
        p
    }
}

/// How many tasks in `s` display with priority `p`.
pub open spec fn count_priority(s: Seq<TaskView>, p: int) -> nat
    decreases s.len(),
{
    if s.len() == 0 {
        0
    } else {
        count_priority(s.drop_last(), p) + if clamped_priority(s.last().priority) == p {
            1nat
        } else {
            0nat
        }
    }
}

impl App {
    /// How many tasks display with each priority, index 0 holding priority 1.
    /// Out-of-range priorities are clamped for display.
    pub fn counts_by_priority(&self) -> (c: [u64; 5])
        ensures
            forall|k: int| 0 <= k < 5 ==> c@[k] == count_priority(self@.list, k + 1),
    {
        let mut c1: u64 = 0;
        let mut c2: u64 = 0;
        let mut c3: u64 = 0;
        let mut c4: u64 = 0;
        let mut c5: u64 = 0;
        let n = self.list.len();
        proof {
            assert(self@.list.take(0) =~= Seq::<TaskView>::empty());
        }
        let mut i: usize = 0;
        while i < n
            invariant
                i <= n,
                n == self@.list.len(),
                c1 <= i && c2 <= i && c3 <= i && c4 <= i && c5 <= i,
                c1 == count_priority(self@.list.take(i as int), 1),
                c2 == count_priority(self@.list.take(i as int), 2),
                c3 == count_priority(self@.list.take(i as int), 3),
                c4 == count_priority(self@.list.take(i as int), 4),
                c5 == count_priority(self@.list.take(i as int), 5),
            decreases n - i,
        {
            proof {
                assert(self@.list.take(i + 1).drop_last() =~= self@.list.take(i as int));
                assert(self@.list.take(i + 1).last() == self@.list[i as int]);
            }
            let p = self.list.items[i].priority;
            let q: i8 = if p < 1 {
                1
            } else if p > 5 {
                5
            } else {
                p
            };
            if q == 1 {
                c1 = c1 + 1;
            } else if q == 2 {
                c2 = c2 + 1;
            } else if q == 3 {
                c3 = c3 + 1;
            } else if q == 4 {
                c4 = c4 + 1;
            } else {
                c5 = c5 + 1;
            }
            i = i + 1;
        }
        proof {
            assert(self@.list.take(n as int) =~= self@.list);
        }
        let c: [u64; 5] = [c1, c2, c3, c4, c5];
        c
    }
}

/// Deleting the task at an in-bounds position and then clamping never leaves
/// the cursor at or past the end of the visible sequence while tasks remain,
/// and parks it at zero when none do.
pub proof fn lemma_delete_then_clamp(s: Seq<TaskView>, p: int, sel: int)
    requires
        0 <= p < s.len(),
        0 <= sel,
    ensures
        s.remove(p).len() > 0 ==> 0 <= clamp_sel(s.remove(p).len() as int, sel) < s.remove(
            p,
        ).len(),
        s.remove(p).len() == 0 ==> clamp_sel(s.remove(p).len() as int, sel) == 0,
{
}

} // verus!

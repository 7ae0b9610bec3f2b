//! The event dispatcher: a total mapping from the current mode and one
//! abstract input event to the next application state. Normal mode is a pure
//! function of the state and the key; Insert-mode confirmation draws a fresh
//! id and timestamp, so its transition is specified as a relation.
use crate::app::{clamp_sel, next_sel, prev_sel, wf, App, AppView, InputMode, InsertField,
    MapView, StatusLine};
use crate::task::{toggled, Status, Task, TaskView};
use crate::text::{spec_trim, string_from_chars, trim_chars};
use crate::todolist::sorted;
use vstd::prelude::*;

verus! {

/// The key presses the dispatcher distinguishes. Anything else arrives as
/// `Other` and is ignored.
#[derive(Debug, Clone, Copy, PartialEq, Eq, Structural)]
pub enum KeyCode {
    Char(char),
    Down,
    Up,
    Left,
    Right,
    Enter,
    Esc,
    Tab,
    BackTab,
    Backspace,
    Other,
}

/// One abstract input event.
#[derive(Debug, Clone, Copy, PartialEq, Eq, Structural)]
pub enum Event {
    Key(KeyCode),
    Resize(u16, u16),
    Other,
}

/// `x` pulled into the priority range `[1, 5]`.
pub open spec fn clamp15(x: int) -> int {
    if x < 1 {
        1
    } else if x > 5 {
        5
    } else {
        x
    }
}

/// The draft field reached from `f` by one forward cycle.
pub open spec fn next_field(f: InsertField) -> InsertField {
    match f {
        InsertField::Title => InsertField::Notes,
        InsertField::Notes => InsertField::Time,
        InsertField::Time => InsertField::Priority,
        InsertField::Priority => InsertField::Title,
    }
}

/// Normal-mode transition for toggling the selected task.
pub open spec fn toggle_step(v: AppView) -> AppView {
    if v.selected < v.list.len() {
        AppView {
            list: v.list.update(v.selected, toggled(v.list[v.selected])),
            status_line: StatusLine::Toggled,
            dirty: true,
            ..v
        }
    } else {
        v
    }
}

/// Normal-mode transition for deleting the selected task, with the cursor
/// clamped back into the shrunken visible range.
pub open spec fn delete_step(v: AppView) -> AppView {
    if v.selected < v.list.len() {
        AppView {
            list: v.list.remove(v.selected),
            selected: clamp_sel(v.list.len() - 1, v.selected),
            status_line: StatusLine::Deleted,
            dirty: true,
            ..v
        }
    } else {
        v
    }
}

/// Normal-mode transition for entering Insert mode: every draft buffer is
/// reset and the status message cleared.
pub open spec fn begin_insert_step(v: AppView) -> AppView {
    AppView {
        input_mode: InputMode::Insert,
        insert_field: InsertField::Title,
        draft_title: Seq::<char>::empty(),
        draft_priority: 1,
        draft_notes: Seq::<char>::empty(),
        draft_timeframe: Seq::<char>::empty(),
        status_line: StatusLine::Blank,
        ..v
    }
}

/// The complete Normal-mode transition function.
pub open spec fn normal_step(v: AppView, code: KeyCode) -> AppView {
    match code {
        KeyCode::Char(c) => if c == 'a' {
            begin_insert_step(v)
        } else if c == ' ' {
            AppView {
                expanded: !v.expanded,
                status_line: if !v.expanded {
                    StatusLine::Expanded
                } else {
                    StatusLine::Collapsed
                },
                ..v
            }
        } else if c == 'd' {
            delete_step(v)
        } else if c == 's' {
            AppView { status_line: StatusLine::Saved, dirty: true, ..v }
        } else if c == 'm' {
            AppView {
                map_view: if v.map_view == MapView::World {
                    MapView::Nyc
                } else {
                    MapView::World
                },
                status_line: if v.map_view == MapView::World {
                    StatusLine::MapNyc
                } else {
                    StatusLine::MapWorld
                },
                ..v
            }
        } else if c == 'l' {
            AppView {
                tabs: crate::app::TabsView {
                    titles: v.tabs.titles,
                    index: (v.tabs.index + 1) % v.tabs.titles.len() as int,
                },
                ..v
            }
        } else if c == 'h' {
            AppView {
                tabs: crate::app::TabsView {
                    titles: v.tabs.titles,
                    index: if v.tabs.index == 0 {
                        v.tabs.titles.len() - 1
                    } else {
                        v.tabs.index - 1
                    },
                },
                ..v
            }
        } else if c == 't' {
            AppView {
                show_chart: !v.show_chart,
                status_line: if !v.show_chart {
                    StatusLine::ChartOn
                } else {
                    StatusLine::ChartOff
                },
                ..v
            }
        } else if c == 'g' {
            AppView {
                enhanced_graphics: !v.enhanced_graphics,
                status_line: if !v.enhanced_graphics {
                    StatusLine::GraphicsEnhanced
                } else {
                    StatusLine::GraphicsNormal
                },
                ..v
            }
        } else {
            v
        },
        KeyCode::Down => AppView { selected: next_sel(v), ..v },
        KeyCode::Up => AppView { selected: prev_sel(v), ..v },
        KeyCode::Enter => toggle_step(v),
        KeyCode::Tab | KeyCode::Right => AppView {
            tabs: crate::app::TabsView {
                titles: v.tabs.titles,
                index: (v.tabs.index + 1) % v.tabs.titles.len() as int,
            },
            ..v
        },
        KeyCode::BackTab | KeyCode::Left => AppView {
            tabs: crate::app::TabsView {
                titles: v.tabs.titles,
                index: if v.tabs.index == 0 {
                    v.tabs.titles.len() - 1
                } else {
                    v.tabs.index - 1
                },
            },
            ..v
        },
        _ => v,
    }
}

/// The task committed from the draft buffers, given the drawn id and
/// creation time.
pub open spec fn draft_task(v: AppView, id: Seq<char>, ts: int) -> TaskView {
    TaskView {
        id,
        title: spec_trim(v.draft_title),
        notes: if spec_trim(v.draft_notes).len() == 0 {
            None
        } else {
            Some(spec_trim(v.draft_notes))
        },
        priority: v.draft_priority,
        status: Status::Pending,
        created_at: ts,
        timeframe: if spec_trim(v.draft_timeframe).len() == 0 {
            None
        } else {
            Some(spec_trim(v.draft_timeframe))
        },
    }
}

/// Insert-mode confirmation with a non-blank title: the drafted task joins
/// the collection under the canonical order, the state returns to Normal and
/// becomes dirty. The id and timestamp are drawn fresh, so they are
/// existentially quantified.
pub open spec fn commit_post(pre: AppView, post: AppView) -> bool {
    exists|id: Seq<char>, ts: int|
        {
            &&& 0 <= ts
            &&& #[trigger] post.list.to_multiset() == pre.list.to_multiset().insert(
                #[trigger] draft_task(pre, id, ts),
            )
            &&& sorted(post.list)
            &&& post.list.len() == pre.list.len() + 1
            &&& post == (AppView {
                list: post.list,
                input_mode: InputMode::Normal,
                status_line: StatusLine::Added,
                dirty: true,
                ..pre
            })
        }
}

/// The complete Insert-mode transition relation.
pub open spec fn insert_post(pre: AppView, post: AppView, code: KeyCode) -> bool {
    match code {
        KeyCode::Esc => post == (AppView {
            input_mode: InputMode::Normal,
            status_line: StatusLine::Cancelled,
            ..pre
        }),
        KeyCode::Enter => if spec_trim(pre.draft_title).len() == 0 {
            post == (AppView { status_line: StatusLine::TitleEmpty, ..pre })
        } else {
            commit_post(pre, post)
        },
        KeyCode::Tab => post == (AppView { insert_field: next_field(pre.insert_field), ..pre }),
        KeyCode::Backspace => match pre.insert_field {
            InsertField::Title => post == (AppView {
                draft_title: dropped_last(pre.draft_title),
                ..pre
            }),
            InsertField::Notes => post == (AppView {
                draft_notes: dropped_last(pre.draft_notes),
                ..pre
            }),
            InsertField::Time => post == (AppView {
                draft_timeframe: dropped_last(pre.draft_timeframe),
                ..pre
            }),
            InsertField::Priority => post == pre,
        },
        KeyCode::Char(c) => match pre.insert_field {
            InsertField::Title => post == (AppView { draft_title: pre.draft_title.push(c), ..pre }),
            InsertField::Notes => post == (AppView { draft_notes: pre.draft_notes.push(c), ..pre }),
            InsertField::Time => post == (AppView {
                draft_timeframe: pre.draft_timeframe.push(c),
                ..pre
            }),
            InsertField::Priority => post == pre,
        },
        KeyCode::Left | KeyCode::Up => match pre.insert_field {
            InsertField::Priority => post == (AppView {
                draft_priority: clamp15(pre.draft_priority - 1),
                ..pre
            }),
            _ => post == pre,
        },
        KeyCode::Right | KeyCode::Down => match pre.insert_field {
            InsertField::Priority => post == (AppView {
                draft_priority: clamp15(pre.draft_priority + 1),
                ..pre
            }),
            _ => post == pre,
        },
        _ => post == pre,
    }
}

/// `s` without its last character; the empty sequence stays empty.
pub open spec fn dropped_last(s: Seq<char>) -> Seq<char> {
    if s.len() == 0 {
        s
    } else {
        s.drop_last()
    }
}

/// Dispatch one key in Normal mode.
#[verifier::rlimit(100)]
pub fn handle_normal_mode(app: &mut App, code: KeyCode) -> (keep: bool)
    requires
        wf(old(app)@),
    ensures
        wf(final(app)@),
        final(app)@ == normal_step(old(app)@, code),
        keep == (code != KeyCode::Char('q')),
{
    match code {
        KeyCode::Char(c) => {
            if c == 'q' {
                return false;
            } else if c == 'a' {
                app.input_mode = InputMode::Insert;
                app.insert_field = InsertField::Title;
                app.draft_title = Vec::new();
                app.draft_priority = 1;
                app.draft_notes = Vec::new();
                app.draft_timeframe = Vec::new();
                app.status_line = StatusLine::Blank;
            } else if c == ' ' {
                app.expanded = !app.expanded;
                app.status_line = if app.expanded {
                    StatusLine::Expanded
                } else {
                    StatusLine::Collapsed
                };
            } else if c == 'd' {
                if app.list.delete_index(app.selected) {
                    app.status_line = StatusLine::Deleted;
                    app.dirty = true;
                    app.clamp_selection();
                }
            } else if c == 's' {
                app.status_line = StatusLine::Saved;
                app.dirty = true;
            } else if c == 'm' {
                if app.map_view == MapView::World {
                    app.map_view = MapView::Nyc;
                    app.status_line = StatusLine::MapNyc;
                } else {
                    app.map_view = MapView::World;
                    app.status_line = StatusLine::MapWorld;
                }
            } else if c == 'l' {
                app.tabs.next();
            } else if c == 'h' {
                app.tabs.prev();
            } else if c == 't' {
                app.show_chart = !app.show_chart;
                app.status_line = if app.show_chart {
                    StatusLine::ChartOn
                } else {
                    StatusLine::ChartOff
                };
            } else if c == 'g' {
                app.enhanced_graphics = !app.enhanced_graphics;
                app.status_line = if app.enhanced_graphics {
                    StatusLine::GraphicsEnhanced
                } else {
                    StatusLine::GraphicsNormal
                };
            }
        },
        KeyCode::Down => {
            app.select_next();
        },
        KeyCode::Up => {
            app.select_prev();
        },
        KeyCode::Enter => {
            if app.selected < app.list.len() {
                let sel = app.selected;
                if app.list.toggle_done_index(sel) {
                    app.status_line = StatusLine::Toggled;
                    app.dirty = true;
                }
            }
        },
        KeyCode::Tab | KeyCode::Right => {
            app.tabs.next();
        },
        KeyCode::BackTab | KeyCode::Left => {
            app.tabs.prev();
        },
        _ => {},
    }
    proof {
        assert(app@ =~~= normal_step(old(app)@, code));
    }
    true
}

/// Dispatch one key in Insert mode.
#[verifier::rlimit(100)]
pub fn handle_insert_mode(app: &mut App, code: KeyCode) -> (keep: bool)
    requires
        wf(old(app)@),
    ensures
        wf(final(app)@),
        insert_post(old(app)@, final(app)@, code),
        keep,
{
    match code {
        KeyCode::Esc => {
            app.input_mode = InputMode::Normal;
            app.status_line = StatusLine::Cancelled;
        },
        KeyCode::Enter => {
            let title = trim_chars(&app.draft_title);
            if title.len() > 0 {
                let notes = trim_chars(&app.draft_notes);
                let tf = trim_chars(&app.draft_timeframe);
                let notes_opt: Option<String> = if notes.len() == 0 {
                    None
                } else {
                    Some(string_from_chars(&notes))
                };
                let title_text = string_from_chars(&title);
                let mut t = Task::new(title_text.as_str(), app.draft_priority, notes_opt);
                if tf.len() > 0 {
                    t.timeframe = Some(string_from_chars(&tf));
                }
                let ghost tv = t@;
                app.list.add_task(t);
                app.status_line = StatusLine::Added;
                app.dirty = true;
                app.input_mode = InputMode::Normal;
                proof {
                    assert(tv =~~= draft_task(old(app)@, tv.id, tv.created_at));
                    assert(app@ == (AppView {
                        list: app@.list,
                        input_mode: InputMode::Normal,
                        status_line: StatusLine::Added,
                        dirty: true,
                        ..old(app)@
                    }));
                    assert(commit_post(old(app)@, app@));
                }
            } else {
                app.status_line = StatusLine::TitleEmpty;
            }
        },
        KeyCode::Tab => {
            app.insert_field = match app.insert_field {
                InsertField::Title => InsertField::Notes,
                InsertField::Notes => InsertField::Time,
                InsertField::Time => InsertField::Priority,
                InsertField::Priority => InsertField::Title,
            };
        },
        KeyCode::Backspace => {
            match app.insert_field {
                InsertField::Title => {
                    let _ = app.draft_title.pop();
                },
                InsertField::Notes => {
                    let _ = app.draft_notes.pop();
                },
                InsertField::Time => {
                    let _ = app.draft_timeframe.pop();
                },
                InsertField::Priority => {},
            }
            proof {
                assert(insert_post(old(app)@, app@, code));
            }
        },
        KeyCode::Char(c) => {
            match app.insert_field {
                InsertField::Title => {
                    app.draft_title.push(c);
                },
                InsertField::Notes => {
                    app.draft_notes.push(c);
                },
                InsertField::Time => {
                    app.draft_timeframe.push(c);
                },
                InsertField::Priority => {},
            }
            proof {
                assert(insert_post(old(app)@, app@, code));
            }
        },
        KeyCode::Left | KeyCode::Up => {
            if app.insert_field == InsertField::Priority {
                let q = app.draft_priority - 1;
                app.draft_priority = if q < 1 {
                    1
                } else if q > 5 {
                    5
                } else {
                    q
                };
            }
        },
        KeyCode::Right | KeyCode::Down => {
            if app.insert_field == InsertField::Priority {
                let q = app.draft_priority + 1;
                app.draft_priority = if q < 1 {
                    1
                } else if q > 5 {
                    5
                } else {
                    q
                };
            }
        },
        _ => {},
    }
    true
}

/// Dispatch one abstract input event against the current mode. Returns
/// whether the hosting loop should keep running; only `q` in Normal mode
/// ends it.
pub fn handle_event(app: &mut App, ev: Event) -> (keep: bool)
    requires
        wf(old(app)@),
    ensures
        wf(final(app)@),
        match ev {
            Event::Key(code) => if old(app)@.input_mode == InputMode::Normal {
                final(app)@ == normal_step(old(app)@, code) && keep == (code != KeyCode::Char('q'))
            } else {
                insert_post(old(app)@, final(app)@, code) && keep
            },
            _ => final(app)@ == old(app)@ && keep,
        },
{
    match ev {
        Event::Key(code) => match app.input_mode {
            InputMode::Normal => handle_normal_mode(app, code),
            InputMode::Insert => handle_insert_mode(app, code),
        },
        _ => true,
    }
}

} // verus!

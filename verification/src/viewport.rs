//! The scrollable viewport over a periodically replaced body of lines, and
//! the drift-free refresh schedule.
//!
//! The viewport owns two scroll offsets. At every observation point after a
//! content replacement they satisfy the bounds of [`DisplayState::in_bounds`]:
//! the vertical offset never exceeds the line count less the window height,
//! the horizontal offset never exceeds the widest line's visual width less
//! the window width. A replacement by byte-for-byte identical content is a
//! no-op and deliberately short-circuits before any re-clamping.

use vstd::prelude::*;
use vstd::string::StringExecFns;
use crate::text::cropped_line;
use crate::text::crop_line_for_scroll;
use crate::text::line_width;
use crate::text::visual_width;

verus! {

/// Visual width of the widest line of the content.
pub open spec fn max_line_width(lines: Seq<Seq<char>>) -> nat
    decreases lines.len(),
{
    if lines.len() == 0 {
        0
    } else {
        let rest = max_line_width(lines.drop_last());
        let w = line_width(lines.last());
        if w > rest {
            w
        } else {
            rest
        }
    }
}

/// Largest vertical offset the content admits in a window of this height.
pub open spec fn max_scroll_y(lines: Seq<Seq<char>>, height: int) -> int {
    if lines.len() > height {
        lines.len() - height
    } else {
        0
    }
}

/// Largest horizontal offset the content admits in a window of this width.
pub open spec fn max_scroll_x(lines: Seq<Seq<char>>, width: int) -> int {
    if max_line_width(lines) > width {
        max_line_width(lines) - width
    } else {
        0
    }
}

/// A navigation command, already decoded from the terminal's key events.
#[derive(Clone, Copy, Debug, PartialEq, Eq, Structural)]
pub enum NavKey {
    Up,
    Down,
    Left,
    Right,
    PageUp,
    PageDown,
    Home,
    End,
    CtrlHome,
    CtrlEnd,
}

/// The viewport/content state: scroll offsets, the current body of lines,
/// and the schedule's reference instant, in milliseconds of a monotonic clock.
pub struct DisplayState {
    pub scroll_y: usize,
    pub scroll_x: usize,
    pub content: Vec<String>,
    pub last_update: u64,
}

/// The vertical offset a navigation command moves to, clamped at zero and at
/// the vertical bound; commands that move horizontally leave it untouched.
pub open spec fn nav_scroll_y(st: DisplayState, key: NavKey, height: int) -> int {
    let maxy = max_scroll_y(st.content.deep_view(), height);
    match key {
        NavKey::Up => if st.scroll_y >= 1 {
            st.scroll_y - 1
        } else {
            0
        },
        NavKey::Down => if st.scroll_y + 1 <= maxy {
            st.scroll_y + 1
        } else {
            maxy
        },
        NavKey::PageUp => if st.scroll_y >= height {
            st.scroll_y - height
        } else {
            0
        },
        NavKey::PageDown => if st.scroll_y + height <= maxy {
            st.scroll_y + height
        } else {
            maxy
        },
        NavKey::CtrlHome => 0,
        NavKey::CtrlEnd => maxy,
        _ => st.scroll_y as int,
    }
}

/// The horizontal offset a navigation command moves to, clamped at zero and
/// at the horizontal bound; commands that move vertically leave it untouched.
pub open spec fn nav_scroll_x(st: DisplayState, key: NavKey, width: int) -> int {
    let maxx = max_scroll_x(st.content.deep_view(), width);
    match key {
        NavKey::Left => if st.scroll_x >= 1 {
            st.scroll_x - 1
        } else {
            0
        },
        NavKey::Right => if st.scroll_x + 1 <= maxx {
            st.scroll_x + 1
        } else {
            maxx
        },
        NavKey::Home => 0,
        NavKey::End => maxx,
        _ => st.scroll_x as int,
    }
}

fn max_scroll_y_of(content: &Vec<String>, height: usize) -> (r: usize)
    ensures
        r == max_scroll_y(content.deep_view(), height as int),
{
    let len = content.len();
    if len > height {
        len - height
    } else {
        0
    }
}

fn max_line_width_of(content: &Vec<String>) -> (w: usize)
    ensures
        w == max_line_width(content.deep_view()),
{
    let ghost dv = content.deep_view();
    let mut w: usize = 0;
    let mut i: usize = 0;
    proof {
        assert(dv.take(0) =~= Seq::<Seq<char>>::empty());
    }
    while i < content.len()
        invariant
            0 <= i <= content.len(),
            dv == content.deep_view(),
            dv.len() == content.len(),
            w == max_line_width(dv.take(i as int)),
        decreases content.len() - i,
    {
        let lw = visual_width(content[i].as_str());
        proof {
            assert(dv.take(i + 1).drop_last() =~= dv.take(i as int));
            assert(dv.take(i + 1).last() == dv[i as int]);
        }
        if lw > w {
            w = lw;
        }
        i = i + 1;
    }
    proof {
        assert(dv.take(content.len() as int) =~= dv);
    }
    w
}

fn max_scroll_x_of(content: &Vec<String>, width: usize) -> (r: usize)
    ensures
        r == max_scroll_x(content.deep_view(), width as int),
{
    let mlw = max_line_width_of(content);
    if mlw > width {
        mlw - width
    } else {
        0
    }
}

/// Line-by-line equality of two bodies of content.
fn content_eq(a: &Vec<String>, b: &Vec<String>) -> (r: bool)
    ensures
        r == (a.deep_view() == b.deep_view()),
{
    if a.len() != b.len() {
        proof {
            assert(a.deep_view().len() == a@.len());
            assert(b.deep_view().len() == b@.len());
        }
        return false;
    }
    let mut i: usize = 0;
    while i < a.len()
        invariant
            0 <= i <= a.len(),
            a.len() == b.len(),
            forall|j: int| 0 <= j < i ==> a.deep_view()[j] == b.deep_view()[j],
        decreases a.len() - i,
    {
        if !(a[i] == b[i]) {
            assert(a.deep_view()[i as int] != b.deep_view()[i as int]);
            return false;
        }
        i = i + 1;
    }
    proof {
        assert(a.deep_view() =~= b.deep_view());
    }
    true
}

impl DisplayState {
    /// The content as a sequence of lines of characters.
    pub open spec fn lines(self) -> Seq<Seq<char>> {
        self.content.deep_view()
    }

    /// The scroll offsets lie within the bounds the current content admits
    /// in a window of this size.
    pub open spec fn in_bounds(self, width: int, height: int) -> bool {
        &&& self.scroll_y <= max_scroll_y(self.lines(), height)
        &&& self.scroll_x <= max_scroll_x(self.lines(), width)
    }

    /// A fresh viewport: zero offsets, empty content, and the schedule's
    /// reference instant at the given startup time.
    pub fn new(now_ms: u64) -> (st: DisplayState)
        ensures
            st.scroll_y == 0,
            st.scroll_x == 0,
            st.lines() =~= Seq::<Seq<char>>::empty(),
            st.last_update == now_ms,
    {
        let content: Vec<String> = Vec::new();
        DisplayState { scroll_y: 0, scroll_x: 0, content, last_update: now_ms }
    }

    /// Replace the content, re-clamping both offsets against the new
    /// content's dimensions — unless the new content equals the old line for
    /// line, in which case nothing at all changes (the offsets stay even at
    /// a stale bound).
    pub fn update_content(&mut self, new_content: Vec<String>, width: usize, height: usize)
        ensures
            new_content.deep_view() == old(self).lines() ==> *final(self) == *old(self),
            new_content.deep_view() != old(self).lines() ==> {
                &&& final(self).lines() == new_content.deep_view()
                &&& final(self).scroll_y == (if old(self).scroll_y
                    <= max_scroll_y(new_content.deep_view(), height as int) {
                    old(self).scroll_y as int
                } else {
                    max_scroll_y(new_content.deep_view(), height as int)
                })
                &&& final(self).scroll_x == (if old(self).scroll_x
                    <= max_scroll_x(new_content.deep_view(), width as int) {
                    old(self).scroll_x as int
                } else {
                    max_scroll_x(new_content.deep_view(), width as int)
                })
                &&& final(self).last_update == old(self).last_update
                &&& final(self).in_bounds(width as int, height as int)
            },
    {
        if !content_eq(&new_content, &self.content) {
            let maxy = max_scroll_y_of(&new_content, height);
            if self.scroll_y > maxy {
                self.scroll_y = maxy;
            }
            let maxx = max_scroll_x_of(&new_content, width);
            if self.scroll_x > maxx {
                self.scroll_x = maxx;
            }
            self.content = new_content;
        }
    }

    /// Interpret one navigation command against the current content and the
    /// current window, saturating at zero and at the bounds. Every command
    /// is handled — saturation at a bound is still a successful handling —
    /// and navigation never touches the content or the schedule; offsets
    /// that were in bounds stay in bounds.
    pub fn handle_key_event(&mut self, key: NavKey, width: usize, height: usize) -> (handled:
        bool)
        ensures
            handled,
            final(self).content == old(self).content,
            final(self).last_update == old(self).last_update,
            final(self).scroll_y == nav_scroll_y(*old(self), key, height as int),
            final(self).scroll_x == nav_scroll_x(*old(self), key, width as int),
            old(self).in_bounds(width as int, height as int) ==> final(self).in_bounds(
                width as int,
                height as int,
            ),
    {
        let maxy = max_scroll_y_of(&self.content, height);
        let maxx = max_scroll_x_of(&self.content, width);
        match key {
            NavKey::Up => {
                self.scroll_y = if self.scroll_y >= 1 {
                    self.scroll_y - 1
                } else {
                    0
                };
            },
            NavKey::Down => {
                self.scroll_y = if self.scroll_y < maxy {
                    self.scroll_y + 1
                } else {
                    maxy
                };
            },
            NavKey::PageUp => {
                self.scroll_y = if self.scroll_y >= height {
                    self.scroll_y - height
                } else {
                    0
                };
            },
            NavKey::PageDown => {
                self.scroll_y = if self.scroll_y >= maxy {
                    maxy
                } else if maxy - self.scroll_y > height {
                    self.scroll_y + height
                } else {
                    maxy
                };
            },
            NavKey::Left => {
                self.scroll_x = if self.scroll_x >= 1 {
                    self.scroll_x - 1
                } else {
                    0
                };
            },
            NavKey::Right => {
                self.scroll_x = if self.scroll_x < maxx {
                    self.scroll_x + 1
                } else {
                    maxx
                };
            },
            NavKey::Home => {
                self.scroll_x = 0;
            },
            NavKey::End => {
                self.scroll_x = maxx;
            },
            NavKey::CtrlHome => {
                self.scroll_y = 0;
            },
            NavKey::CtrlEnd => {
                self.scroll_y = maxy;
            },
        }
        true
    }

    /// Materialize the visible slice of the content: the lines from
    /// `scroll_y` for at most `height` rows, each cropped at `scroll_x`.
    /// When the vertical offset has transiently run past the content (or
    /// the window has no rows), a single placeholder line comes back, never
    /// an empty list.
    pub fn get_display_text(&self, height: usize) -> (r: Vec<String>)
        ensures
            self.scroll_y >= self.lines().len() || height == 0 ==> r.deep_view() =~= seq![
                "没有内容可显示"@,
            ],
            self.scroll_y < self.lines().len() && height > 0 ==> {
                let shown = if self.scroll_y + height <= self.lines().len() {
                    height as int
                } else {
                    self.lines().len() - self.scroll_y
                };
                &&& r.deep_view().len() == shown
                &&& forall|j: int|
                    0 <= j < shown ==> r.deep_view()[j] == cropped_line(
                        self.lines()[self.scroll_y + j],
                        self.scroll_x as int,
                    )
            },
    {
        let len = self.content.len();
        if self.scroll_y >= len || height == 0 {
            let mut r: Vec<String> = Vec::new();
            r.push(String::from_str("没有内容可显示"));
            proof {
                assert(r.deep_view() =~= seq!["没有内容可显示"@]);
            }
            return r;
        }
        let end = if height < len - self.scroll_y {
            self.scroll_y + height
        } else {
            len
        };
        let mut r: Vec<String> = Vec::new();
        let mut i: usize = self.scroll_y;
        while i < end
            invariant
                self.scroll_y <= i <= end <= len,
                len == self.content.len(),
                end == (if self.scroll_y + height <= len {
                    self.scroll_y + height as int
                } else {
                    len as int
                }),
                r.deep_view().len() == i - self.scroll_y,
                forall|j: int|
                    0 <= j < i - self.scroll_y ==> r.deep_view()[j] == cropped_line(
                        self.lines()[self.scroll_y + j],
                        self.scroll_x as int,
                    ),
            decreases end - i,
        {
            let ghost prev = r.deep_view();
            let cropped = crop_line_for_scroll(self.content[i].as_str(), self.scroll_x);
            r.push(cropped);
            proof {
                assert(r.deep_view() =~= prev.push(cropped@));
            }
            i = i + 1;
        }
        r
    }

    /// Decide whether a refresh is due at `now_ms` under a fixed interval;
    /// when it is, advance the reference instant by exactly one whole
    /// interval — not to `now_ms` — so that however late the check ran, the
    /// schedule keeps its original phase. Nothing else of the state moves.
    pub fn should_update(&mut self, now_ms: u64, interval_ms: u64) -> (due: bool)
        ensures
            due == (old(self).last_update + interval_ms <= now_ms),
            due ==> final(self).last_update == old(self).last_update + interval_ms,
            !due ==> final(self).last_update == old(self).last_update,
            final(self).scroll_y == old(self).scroll_y,
            final(self).scroll_x == old(self).scroll_x,
            final(self).content == old(self).content,
    {
        if now_ms >= self.last_update && now_ms - self.last_update >= interval_ms {
            self.last_update = self.last_update + interval_ms;
            true
        } else {
            false
        }
    }

    /// How long the event wait may block at `now_ms`: the time remaining
    /// until the refresh is due, never negative, capped at `cap_ms` — so a
    /// pending refresh is delayed by at most the cap beyond its due time.
    pub fn poll_timeout_ms(&self, now_ms: u64, interval_ms: u64, cap_ms: u64) -> (r: u64)
        requires
            self.last_update <= now_ms,
        ensures
            r == poll_timeout_spec(
                self.last_update as int,
                now_ms as int,
                interval_ms as int,
                cap_ms as int,
            ),
    {
        let elapsed = now_ms - self.last_update;
        let remaining = if interval_ms >= elapsed {
            interval_ms - elapsed
        } else {
            0
        };
        if remaining <= cap_ms {
            remaining
        } else {
            cap_ms
        }
    }
}

/// The bounded wait before the next event check: `min(cap, max(0,
/// interval - (now - reference)))`.
pub open spec fn poll_timeout_spec(reference: int, now: int, interval: int, cap: int) -> int {
    let remaining = if interval - (now - reference) >= 0 {
        interval - (now - reference)
    } else {
        0
    };
    if remaining <= cap {
        remaining
    } else {
        cap
    }
}

/// Rows left for content once the status row and the separator row are
/// reserved, degrading to the separator alone and then to a single row when
/// the terminal is too short.
pub fn content_height(term_height: usize) -> (r: usize)
    ensures
        r == (if term_height >= 3 {
            term_height - 2
        } else if term_height >= 2 {
            term_height - 1
        } else {
            1
        }),
{
    if term_height >= 3 {
        term_height - 2
    } else if term_height >= 2 {
        term_height - 1
    } else {
        1
    }
}

/// The reference instant left after running a due-check at each observation
/// time in turn, each check advancing by one whole `interval` exactly when
/// the elapsed time since the reference had reached the interval.
pub open spec fn schedule_after(start: int, interval: int, times: Seq<int>) -> int
    decreases times.len(),
{
    if times.len() == 0 {
        start
    } else {
        let r = schedule_after(start, interval, times.drop_last());
        if times.last() - r >= interval {
            r + interval
        } else {
            r
        }
    }
}

/// How many of the due-checks in such a run came out due.
pub open spec fn due_count(start: int, interval: int, times: Seq<int>) -> nat
    decreases times.len(),
{
    if times.len() == 0 {
        0
    } else {
        let r = schedule_after(start, interval, times.drop_last());
        due_count(start, interval, times.drop_last()) + if times.last() - r >= interval {
            1nat
        } else {
            0nat
        }
    }
}

/// The schedule never drifts: whatever the observation times were — however
/// late each due-check ran — after `k` checks came out due the reference
/// instant stands at exactly `start + k * interval`.
pub proof fn lemma_schedule_no_drift(start: int, interval: int, times: Seq<int>)
    ensures
        schedule_after(start, interval, times) == start + due_count(start, interval, times)
            * interval,
    decreases times.len(),
{
    if times.len() == 0 {
        assert(schedule_after(start, interval, times) == start);
        assert(due_count(start, interval, times) == 0);
        assert(start + 0 * interval == start) by (nonlinear_arith);
    } else {
        let ts = times.drop_last();
        lemma_schedule_no_drift(start, interval, ts);
        let r = schedule_after(start, interval, ts);
        let k = due_count(start, interval, ts);
        if times.last() - r >= interval {
            assert(schedule_after(start, interval, times) == r + interval);
            assert(due_count(start, interval, times) == k + 1);
            assert((k + 1) * interval == k * interval + interval) by (nonlinear_arith);
        } else {
            assert(schedule_after(start, interval, times) == r);
            assert(due_count(start, interval, times) == k);
        }
    }
}

} // verus!

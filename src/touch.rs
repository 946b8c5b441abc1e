//! Touch gesture arbitration.
//!
//! The touch surface is split into a gesture zone (`y < 240`) and three key
//! bands below it. At most one touch id drives pointer events at a time; touches
//! in the key bands produce key presses and releases.

use vstd::prelude::*;

verus! {

/// Height of the gesture zone: points with `y` below this drive the pointer.
pub const GESTURE_ZONE_HEIGHT: u16 = 240;

/// Right edge (exclusive) of the left key band.
pub const LEFT_KEY_END: u16 = 107;

/// Right edge (exclusive) of the center key band.
pub const CENTER_KEY_END: u16 = 214;

/// Pause between two samples of a polling session, in milliseconds; the
/// controller refreshes about every 19 ms.
pub const TOUCH_POLL_INTERVAL_MS: u32 = 20;

/// Number of simultaneous contacts the touch controller reports.
pub const TOUCH_SLOTS: u8 = 2;

/// Raw state of a touch sample as reported by the controller.
#[derive(Debug, Clone, Copy, PartialEq, Eq, Structural)]
pub enum PointState {
    Pressed,
    Released,
    Moved,
}

/// One raw touch sample.
#[derive(Debug, Clone, Copy, PartialEq, Eq, Structural)]
pub struct Point {
    pub id: u8,
    pub state: PointState,
    pub x: u16,
    pub y: u16,
}

/// The three keys of the button band.
#[derive(Debug, Clone, Copy, PartialEq, Eq, Structural)]
pub enum TouchKey {
    Left,
    Center,
    Right,
}

/// Window events produced by the arbiter. Pointer events always use the
/// primary (left) button.
#[derive(Debug, Clone, Copy, PartialEq, Eq, Structural)]
pub enum WindowEvent {
    PointerPressed { x: u16, y: u16 },
    PointerMoved { x: u16, y: u16 },
    PointerReleased { x: u16, y: u16 },
    PointerExited,
    KeyPressed { key: TouchKey },
    KeyReleased { key: TouchKey },
}

/// The key band that an `x` coordinate falls in.
pub open spec fn key_of(x: u16) -> TouchKey {
    if x < 107 {
        TouchKey::Left
    } else if x < 214 {
        TouchKey::Center
    } else {
        TouchKey::Right
    }
}

/// Maps an `x` coordinate of the button band to its key:
/// `[0, 107)` left, `[107, 214)` center, everything further right is the right key.
pub fn key_for_x(x: u16) -> (k: TouchKey)
    ensures
        k == key_of(x),
        x < 107 ==> k == TouchKey::Left,
        107 <= x < 214 ==> k == TouchKey::Center,
        214 <= x ==> k == TouchKey::Right,
{
    if x < LEFT_KEY_END {
        TouchKey::Left
    } else if x < CENTER_KEY_END {
        TouchKey::Center
    } else {
        TouchKey::Right
    }
}


/// What the arbiter remembers of one touch id during a polling session.
#[derive(Debug, Clone, Copy, PartialEq, Eq, Structural)]
pub struct TouchSlot {
    pub active: bool,
    pub x: u16,
    pub y: u16,
}

/// State of the touch gesture arbiter for one polling session.
#[derive(Debug, Clone, Copy, PartialEq, Eq, Structural)]
pub struct TouchArbiter {
    pub slot0: TouchSlot,
    pub slot1: TouchSlot,
    pub pointer: Option<u8>,
}

/// What one polling iteration yields: the events, in emission order, and
/// whether polling goes on (it stops once a sample holds no point).
pub struct SampleOutcome {
    pub events: Vec<WindowEvent>,
    pub keep_polling: bool,
}

/// A sample is well formed when every id names one of the two contact slots.
pub open spec fn valid_sample(points: Seq<Point>) -> bool {
    forall|k: int| 0 <= k < points.len() ==> (#[trigger] points[k]).id < 2
}

/// Whether id `i` occurs in the sample.
pub open spec fn seen(points: Seq<Point>, i: int) -> bool {
    exists|k: int| 0 <= k < points.len() && (#[trigger] points[k]).id as int == i
}

impl TouchArbiter {
    /// The remembered state of id `i` (0 or 1).
    pub open spec fn slot(self, i: int) -> TouchSlot {
        if i == 0 {
            self.slot0
        } else {
            self.slot1
        }
    }

    pub open spec fn with_slot(self, i: int, s: TouchSlot) -> TouchArbiter {
        if i == 0 {
            TouchArbiter { slot0: s, ..self }
        } else {
            TouchArbiter { slot1: s, ..self }
        }
    }

    pub open spec fn with_pointer(self, p: Option<u8>) -> TouchArbiter {
        TouchArbiter { pointer: p, ..self }
    }

    /// The single-pointer invariant: the pointer owner is a valid id that is
    /// held down, and a held id owns the pointer exactly when its contact lies
    /// in the gesture zone; so a key-band contact never owns the pointer.
    pub open spec fn wf(self) -> bool {
        &&& (self.pointer matches Some(i) ==> i < 2 && self.slot(i as int).active)
        &&& forall|i: int|
            0 <= i < 2 && #[trigger] self.slot(i).active ==> (self.pointer == Some(i as u8)
                <==> self.slot(i).y < 240)
    }

    /// Effect of one observed point, before releases are considered.
    pub open spec fn point_step(self, p: Point) -> (TouchArbiter, Seq<WindowEvent>) {
        let i = p.id as int;
        let sl = self.slot(i);
        let pressed = TouchSlot { active: true, x: p.x, y: p.y };
        if p.y < 240 {
            let s1 = if self.pointer is None && !sl.active {
                self.with_pointer(Some(p.id))
            } else {
                self
            };
            if s1.pointer != Some(p.id) {
                (s1, seq![])
            } else if sl.active && sl.x == p.x && sl.y == p.y {
                (s1, seq![])
            } else if sl.active {
                (s1.with_slot(i, pressed), seq![WindowEvent::PointerMoved { x: p.x, y: p.y }])
            } else {
                (s1.with_slot(i, pressed), seq![WindowEvent::PointerPressed { x: p.x, y: p.y }])
            }
        } else {
            if self.pointer == Some(p.id) || sl.active {
                (self, seq![])
            } else {
                (self.with_slot(i, pressed), seq![WindowEvent::KeyPressed { key: key_of(p.x) }])
            }
        }
    }

    /// Effect of the points `points`, observed in order.
    pub open spec fn points_step(self, points: Seq<Point>) -> (TouchArbiter, Seq<WindowEvent>)
        decreases points.len(),
    {
        if points.len() == 0 {
            (self, seq![])
        } else {
            let (s1, e1) = self.points_step(points.drop_last());
            let (s2, e2) = s1.point_step(points.last());
            (s2, e1 + e2)
        }
    }

    /// Releases id `i` if it was active and is absent from the sample.
    pub open spec fn release_step(self, i: int, present: bool) -> (TouchArbiter, Seq<WindowEvent>) {
        let sl = self.slot(i);
        if !sl.active || present {
            (self, seq![])
        } else {
            let s1 = self.with_slot(i, TouchSlot { active: false, ..sl });
            if self.pointer == Some(i as u8) {
                (
                    s1.with_pointer(None),
                    seq![
                        WindowEvent::PointerReleased { x: sl.x, y: sl.y },
                        WindowEvent::PointerExited,
                    ],
                )
            } else {
                (s1, seq![WindowEvent::KeyReleased { key: key_of(sl.x) }])
            }
        }
    }

    /// Effect of one polling iteration on sample `points`: the points in
    /// order, then the release of every active id that the sample lacks.
    pub open spec fn sample_step(self, points: Seq<Point>) -> (TouchArbiter, Seq<WindowEvent>) {
        let (s1, e1) = self.points_step(points);
        let (s2, e2) = s1.release_step(0, seen(points, 0));
        let (s3, e3) = s2.release_step(1, seen(points, 1));
        (s3, e1 + e2 + e3)
    }

    /// The state at the start of a polling session: nothing active, no pointer.
    pub fn new() -> (r: TouchArbiter)
        ensures
            r.wf(),
            r.pointer is None,
            r.slot(0) == (TouchSlot { active: false, x: 0, y: 0 }),
            r.slot(1) == (TouchSlot { active: false, x: 0, y: 0 }),
    {
        let blank = TouchSlot { active: false, x: 0, y: 0 };
        TouchArbiter { slot0: blank, slot1: blank, pointer: None }
    }

    /// The touch id that currently owns the pointer, if any.
    pub fn pointer_id(&self) -> (r: Option<u8>)
        ensures
            r == self.pointer,
    {
        self.pointer
    }

    /// Whether touch id `id` is currently held.
    pub fn is_active(&self, id: u8) -> (r: bool)
        requires
            id < 2,
        ensures
            r == self.slot(id as int).active,
    {
        if id == 0 {
            self.slot0.active
        } else {
            self.slot1.active
        }
    }

    fn get_slot(&self, id: u8) -> (r: TouchSlot)
        requires
            id < 2,
        ensures
            r == self.slot(id as int),
    {
        if id == 0 {
            self.slot0
        } else {
            self.slot1
        }
    }

    fn set_slot(&mut self, id: u8, s: TouchSlot)
        requires
            id < 2,
        ensures
            *final(self) == old(self).with_slot(id as int, s),
    {
        if id == 0 {
            self.slot0 = s;
        } else {
            self.slot1 = s;
        }
    }

    fn apply_point(&mut self, p: Point, events: &mut Vec<WindowEvent>)
        requires
            p.id < 2,
        ensures
            *final(self) == old(self).point_step(p).0,
            final(events)@ == old(events)@ + old(self).point_step(p).1,
    {
        let sl = self.get_slot(p.id);
        let pressed = TouchSlot { active: true, x: p.x, y: p.y };
        if p.y < GESTURE_ZONE_HEIGHT {
            if self.pointer.is_none() && !sl.active {
                self.pointer = Some(p.id);
            }
            let owns = match self.pointer {
                Some(i) => i == p.id,
                None => false,
            };
            if !owns {
                return;
            }
            if sl.active && sl.x == p.x && sl.y == p.y {
                return;
            }
            self.set_slot(p.id, pressed);
            if sl.active {
                events.push(WindowEvent::PointerMoved { x: p.x, y: p.y });
            } else {
                events.push(WindowEvent::PointerPressed { x: p.x, y: p.y });
            }
        } else {
            let owns = match self.pointer {
                Some(i) => i == p.id,
                None => false,
            };
            if owns || sl.active {
                return;
            }
            self.set_slot(p.id, pressed);
            events.push(WindowEvent::KeyPressed { key: key_for_x(p.x) });
        }
    }

    fn release(&mut self, id: u8, present: bool, events: &mut Vec<WindowEvent>)
        requires
            id < 2,
        ensures
            *final(self) == old(self).release_step(id as int, present).0,
            final(events)@ == old(events)@ + old(self).release_step(id as int, present).1,
    {
        let sl = self.get_slot(id);
        if !sl.active || present {
            return;
        }
        self.set_slot(id, TouchSlot { active: false, x: sl.x, y: sl.y });
        let owns = match self.pointer {
            Some(i) => i == id,
            None => false,
        };
        if owns {
            self.pointer = None;
            events.push(WindowEvent::PointerReleased { x: sl.x, y: sl.y });
            events.push(WindowEvent::PointerExited);
        } else {
            events.push(WindowEvent::KeyReleased { key: key_for_x(sl.x) });
        }
    }

    /// Runs one polling iteration on the sample `points` (every id 0 or 1).
    /// Returns the events that the sample causes, in order, and whether the
    /// session goes on: it ends on a sample with no point.
    pub fn process_sample(&mut self, points: &Vec<Point>) -> (r: SampleOutcome)
        requires
            valid_sample(points@),
        ensures
            *final(self) == old(self).sample_step(points@).0,
            r.events@ == old(self).sample_step(points@).1,
            r.keep_polling == (points@.len() > 0),
            old(self).wf() ==> final(self).wf(),
    {
        proof {
            if old(self).wf() {
                lemma_sample_step_keeps_single_pointer(*old(self), points@);
            }
        }
        let mut events: Vec<WindowEvent> = Vec::new();
        let mut seen0 = false;
        let mut seen1 = false;
        let mut k: usize = 0;
        while k < points.len()
            invariant
                valid_sample(points@),
                0 <= k <= points@.len(),
                (*self, events@) == old(self).points_step(points@.subrange(0, k as int)),
                seen0 == seen(points@.subrange(0, k as int), 0),
                seen1 == seen(points@.subrange(0, k as int), 1),
            decreases points@.len() - k,
        {
            let p = points[k];
            assert(points@.subrange(0, k + 1).drop_last() == points@.subrange(0, k as int));
            if p.id == 0 {
                seen0 = true;
            } else {
                seen1 = true;
            }
            self.apply_point(p, &mut events);
            k = k + 1;
            proof {
                let pre = points@.subrange(0, k - 1);
                let cur = points@.subrange(0, k as int);
                assert(cur[k - 1] == p);
                if seen(pre, 0) {
                    let j = choose|j: int| 0 <= j < pre.len() && (#[trigger] pre[j]).id as int == 0;
                    assert(cur[j] == pre[j]);
                }
                if seen(pre, 1) {
                    let j = choose|j: int| 0 <= j < pre.len() && (#[trigger] pre[j]).id as int == 1;
                    assert(cur[j] == pre[j]);
                }
                if seen(cur, 0) && p.id != 0 {
                    let j = choose|j: int| 0 <= j < cur.len() && (#[trigger] cur[j]).id as int == 0;
                    assert(pre[j] == cur[j]);
                }
                if seen(cur, 1) && p.id != 1 {
                    let j = choose|j: int| 0 <= j < cur.len() && (#[trigger] cur[j]).id as int == 1;
                    assert(pre[j] == cur[j]);
                }
            }
        }
        assert(points@.subrange(0, points@.len() as int) == points@);
        self.release(0, seen0, &mut events);
        self.release(1, seen1, &mut events);
        SampleOutcome { events, keep_polling: points.len() > 0 }
    }
}


/// One observed point keeps the single-pointer invariant.
proof fn lemma_point_step_wf(s: TouchArbiter, p: Point)
    requires
        s.wf(),
        p.id < 2,
    ensures
        s.point_step(p).0.wf(),
{
    let t = s.point_step(p).0;
    assert forall|i: int| 0 <= i < 2 && #[trigger] t.slot(i).active implies (t.pointer == Some(
        i as u8,
    ) <==> t.slot(i).y < 240) by {
        if i != p.id as int {
            assert(t.slot(i) == s.slot(i));
            assert(s.slot(i).active);
        }
    }
}

/// Releasing an id keeps the single-pointer invariant.
proof fn lemma_release_step_wf(s: TouchArbiter, i: int, present: bool)
    requires
        s.wf(),
        0 <= i < 2,
    ensures
        s.release_step(i, present).0.wf(),
{
    let t = s.release_step(i, present).0;
    assert forall|j: int| 0 <= j < 2 && #[trigger] t.slot(j).active implies (t.pointer == Some(
        j as u8,
    ) <==> t.slot(j).y < 240) by {
        assert(t.slot(j) == s.slot(j));
        assert(s.slot(j).active);
    }
}

proof fn lemma_points_step_wf(s: TouchArbiter, points: Seq<Point>)
    requires
        s.wf(),
        valid_sample(points),
    ensures
        s.points_step(points).0.wf(),
    decreases points.len(),
{
    if points.len() > 0 {
        let pre = points.drop_last();
        assert forall|k: int| 0 <= k < pre.len() implies (#[trigger] pre[k]).id < 2 by {
            assert(pre[k] == points[k]);
        }
        lemma_points_step_wf(s, pre);
        lemma_point_step_wf(s.points_step(pre).0, points.last());
    }
}

/// Single-pointer invariant: whatever samples arrive, at most one id owns the
/// pointer, the owner is held down, and a held id owns it exactly when its
/// contact lies in the gesture zone, so a key-band contact is never the
/// pointer.
pub proof fn lemma_sample_step_keeps_single_pointer(s: TouchArbiter, points: Seq<Point>)
    requires
        s.wf(),
        valid_sample(points),
    ensures
        s.sample_step(points).0.wf(),
{
    lemma_points_step_wf(s, points);
    let s1 = s.points_step(points).0;
    lemma_release_step_wf(s1, 0, seen(points, 0));
    lemma_release_step_wf(s1.release_step(0, seen(points, 0)).0, 1, seen(points, 1));
}


/// The kind of a window event, with positions left out; used to count events.
#[derive(Debug, Clone, Copy, PartialEq, Eq, Structural)]
pub enum EventKind {
    PointerPress,
    PointerMove,
    PointerRelease,
    PointerExit,
    KeyPress(TouchKey),
    KeyRelease(TouchKey),
}

pub open spec fn kind_of(e: WindowEvent) -> EventKind {
    match e {
        WindowEvent::PointerPressed { .. } => EventKind::PointerPress,
        WindowEvent::PointerMoved { .. } => EventKind::PointerMove,
        WindowEvent::PointerReleased { .. } => EventKind::PointerRelease,
        WindowEvent::PointerExited => EventKind::PointerExit,
        WindowEvent::KeyPressed { key } => EventKind::KeyPress(key),
        WindowEvent::KeyReleased { key } => EventKind::KeyRelease(key),
    }
}

/// Number of events of kind `k` in `evs`.
pub open spec fn count_kind(evs: Seq<WindowEvent>, k: EventKind) -> int
    decreases evs.len(),
{
    if evs.len() == 0 {
        0
    } else {
        count_kind(evs.drop_last(), k) + if kind_of(evs.last()) == k {
            1int
        } else {
            0int
        }
    }
}

proof fn lemma_count_concat(a: Seq<WindowEvent>, b: Seq<WindowEvent>, k: EventKind)
    ensures
        count_kind(a + b, k) == count_kind(a, k) + count_kind(b, k),
    decreases b.len(),
{
    if b.len() > 0 {
        assert((a + b).drop_last() == a + b.drop_last());
        lemma_count_concat(a, b.drop_last(), k);
    }
}

proof fn lemma_count_small(e: WindowEvent, f: WindowEvent, k: EventKind)
    ensures
        count_kind(seq![], k) == 0,
        count_kind(seq![e], k) == if kind_of(e) == k {
            1int
        } else {
            0int
        },
        count_kind(seq![e, f], k) == (if kind_of(e) == k {
            1int
        } else {
            0int
        }) + (if kind_of(f) == k {
            1int
        } else {
            0int
        }),
{
    assert(seq![e].drop_last() =~= Seq::<WindowEvent>::empty());
    assert(seq![e, f].drop_last() =~= seq![e]);
    assert(seq![e].last() == e);
    assert(seq![e, f].last() == f);
    reveal_with_fuel(count_kind, 3);
}

impl TouchArbiter {
    /// 1 while the pointer owner is held down, else 0.
    pub open spec fn pointer_held(self) -> int {
        match self.pointer {
            Some(i) => if i < 2 && self.slot(i as int).active {
                1int
            } else {
                0int
            },
            None => 0int,
        }
    }

    /// 1 if id `i` is held as key `k`, else 0.
    pub open spec fn held_as_key(self, i: int, k: TouchKey) -> int {
        if self.slot(i).active && self.pointer != Some(i as u8) && key_of(self.slot(i).x) == k {
            1int
        } else {
            0int
        }
    }

    /// Number of ids held down as key `k`.
    pub open spec fn key_held(self, k: TouchKey) -> int {
        self.held_as_key(0, k) + self.held_as_key(1, k)
    }
}

/// Events `evs` carry `s` to `t` with every press matched: the pointer and
/// each key are held in `t` as often as in `s`, plus their presses, minus
/// their releases; and every pointer release comes with a pointer exit.
pub open spec fn balanced(s: TouchArbiter, t: TouchArbiter, evs: Seq<WindowEvent>) -> bool {
    &&& t.pointer_held() == s.pointer_held() + count_kind(evs, EventKind::PointerPress)
        - count_kind(evs, EventKind::PointerRelease)
    &&& count_kind(evs, EventKind::PointerExit) - count_kind(evs, EventKind::PointerRelease) == 0
    &&& forall|k: TouchKey|
        #[trigger] t.key_held(k) == s.key_held(k) + count_kind(evs, EventKind::KeyPress(k))
            - count_kind(evs, EventKind::KeyRelease(k))
}

proof fn lemma_balanced_chain(
    s: TouchArbiter,
    t: TouchArbiter,
    u: TouchArbiter,
    a: Seq<WindowEvent>,
    b: Seq<WindowEvent>,
)
    requires
        balanced(s, t, a),
        balanced(t, u, b),
    ensures
        balanced(s, u, a + b),
{
    lemma_count_concat(a, b, EventKind::PointerPress);
    lemma_count_concat(a, b, EventKind::PointerRelease);
    lemma_count_concat(a, b, EventKind::PointerExit);
    assert forall|k: TouchKey|
        #[trigger] u.key_held(k) == s.key_held(k) + count_kind(a + b, EventKind::KeyPress(k))
            - count_kind(a + b, EventKind::KeyRelease(k)) by {
        lemma_count_concat(a, b, EventKind::KeyPress(k));
        lemma_count_concat(a, b, EventKind::KeyRelease(k));
        assert(t.key_held(k) == s.key_held(k) + count_kind(a, EventKind::KeyPress(k))
            - count_kind(a, EventKind::KeyRelease(k)));
        assert(u.key_held(k) == t.key_held(k) + count_kind(b, EventKind::KeyPress(k))
            - count_kind(b, EventKind::KeyRelease(k)));
    }
}

proof fn lemma_balanced_empty(s: TouchArbiter)
    ensures
        balanced(s, s, seq![]),
{
    let e = WindowEvent::PointerExited;
    lemma_count_small(e, e, EventKind::PointerPress);
    lemma_count_small(e, e, EventKind::PointerRelease);
    lemma_count_small(e, e, EventKind::PointerExit);
    assert forall|k: TouchKey|
        #[trigger] s.key_held(k) == s.key_held(k) + count_kind(seq![], EventKind::KeyPress(k))
            - count_kind(seq![], EventKind::KeyRelease(k)) by {
        lemma_count_small(e, e, EventKind::KeyPress(k));
        lemma_count_small(e, e, EventKind::KeyRelease(k));
    }
}

proof fn lemma_point_step_balanced(s: TouchArbiter, p: Point)
    requires
        p.id < 2,
    ensures
        balanced(s, s.point_step(p).0, s.point_step(p).1),
{
    let (t, evs) = s.point_step(p);
    let e = WindowEvent::PointerExited;
    if evs.len() == 0 {
        assert(evs =~= seq![]);
    } else {
        assert(evs =~= seq![evs[0]]);
    }
    lemma_count_small(evs.first(), e, EventKind::PointerPress);
    lemma_count_small(evs.first(), e, EventKind::PointerRelease);
    lemma_count_small(evs.first(), e, EventKind::PointerExit);
    assert forall|k: TouchKey|
        #[trigger] t.key_held(k) == s.key_held(k) + count_kind(evs, EventKind::KeyPress(k))
            - count_kind(evs, EventKind::KeyRelease(k)) by {
        lemma_count_small(evs.first(), e, EventKind::KeyPress(k));
        lemma_count_small(evs.first(), e, EventKind::KeyRelease(k));
    }
}

proof fn lemma_release_step_balanced(s: TouchArbiter, i: int, present: bool)
    requires
        0 <= i < 2,
    ensures
        balanced(s, s.release_step(i, present).0, s.release_step(i, present).1),
        !present ==> !s.release_step(i, present).0.slot(i).active,
        s.release_step(i, present).0.slot(1 - i) == s.slot(1 - i),
{
    let (t, evs) = s.release_step(i, present);
    let e = WindowEvent::PointerExited;
    let r = WindowEvent::PointerReleased { x: s.slot(i).x, y: s.slot(i).y };
    let kr = WindowEvent::KeyReleased { key: key_of(s.slot(i).x) };
    lemma_count_small(kr, e, EventKind::PointerPress);
    lemma_count_small(kr, e, EventKind::PointerRelease);
    lemma_count_small(kr, e, EventKind::PointerExit);
    lemma_count_small(r, e, EventKind::PointerPress);
    lemma_count_small(r, e, EventKind::PointerRelease);
    lemma_count_small(r, e, EventKind::PointerExit);
    assert forall|k: TouchKey|
        #[trigger] t.key_held(k) == s.key_held(k) + count_kind(evs, EventKind::KeyPress(k))
            - count_kind(evs, EventKind::KeyRelease(k)) by {
        lemma_count_small(kr, e, EventKind::KeyPress(k));
        lemma_count_small(kr, e, EventKind::KeyRelease(k));
        lemma_count_small(r, e, EventKind::KeyPress(k));
        lemma_count_small(r, e, EventKind::KeyRelease(k));
    }
}

proof fn lemma_points_step_balanced(s: TouchArbiter, points: Seq<Point>)
    requires
        valid_sample(points),
    ensures
        balanced(s, s.points_step(points).0, s.points_step(points).1),
    decreases points.len(),
{
    if points.len() == 0 {
        lemma_balanced_empty(s);
    } else {
        let pre = points.drop_last();
        assert forall|k: int| 0 <= k < pre.len() implies (#[trigger] pre[k]).id < 2 by {
            assert(pre[k] == points[k]);
        }
        lemma_points_step_balanced(s, pre);
        let (s1, e1) = s.points_step(pre);
        lemma_point_step_balanced(s1, points.last());
        lemma_balanced_chain(s, s1, s1.point_step(points.last()).0, e1, s1.point_step(points.last()).1);
    }
}

/// Pairing law: over one polling iteration, the pointer and each key end up
/// held as often as before, plus their presses, minus their releases; each
/// pointer release is followed by a pointer exit; and every id missing from
/// the sample is no longer held. Chained over a session, this matches every
/// press with exactly one release of the same kind once its id disappears.
pub proof fn lemma_sample_step_pairs_presses(s: TouchArbiter, points: Seq<Point>)
    requires
        valid_sample(points),
    ensures
        balanced(s, s.sample_step(points).0, s.sample_step(points).1),
        !seen(points, 0) ==> !s.sample_step(points).0.slot(0).active,
        !seen(points, 1) ==> !s.sample_step(points).0.slot(1).active,
{
    lemma_points_step_balanced(s, points);
    let (s1, e1) = s.points_step(points);
    lemma_release_step_balanced(s1, 0, seen(points, 0));
    let (s2, e2) = s1.release_step(0, seen(points, 0));
    lemma_release_step_balanced(s2, 1, seen(points, 1));
    let (s3, e3) = s2.release_step(1, seen(points, 1));
    lemma_balanced_chain(s, s1, s2, e1, e2);
    lemma_balanced_chain(s, s2, s3, e1 + e2, e3);
}


/// Every point of the sample is an id that is already held, at the position
/// recorded for it.
pub open spec fn repeats(s: TouchArbiter, points: Seq<Point>) -> bool {
    forall|k: int|
        0 <= k < points.len() ==> {
            let p = #[trigger] points[k];
            let sl = s.slot(p.id as int);
            sl.active && sl.x == p.x && sl.y == p.y
        }
}

proof fn lemma_points_step_repeat(s: TouchArbiter, points: Seq<Point>)
    requires
        valid_sample(points),
        repeats(s, points),
    ensures
        s.points_step(points) == (s, Seq::<WindowEvent>::empty()),
    decreases points.len(),
{
    if points.len() > 0 {
        let pre = points.drop_last();
        assert forall|k: int| 0 <= k < pre.len() implies (#[trigger] pre[k]).id < 2 by {
            assert(pre[k] == points[k]);
        }
        assert forall|k: int|
            0 <= k < pre.len() implies {
            let p = #[trigger] pre[k];
            let sl = s.slot(p.id as int);
            sl.active && sl.x == p.x && sl.y == p.y
        } by {
            assert(pre[k] == points[k]);
        }
        lemma_points_step_repeat(s, pre);
        let p = points.last();
        assert(points[points.len() - 1] == p);
        assert(s.point_step(p) == (s, Seq::<WindowEvent>::empty()));
        assert(Seq::<WindowEvent>::empty() + Seq::<WindowEvent>::empty() =~= Seq::<
            WindowEvent,
        >::empty());
    }
}

/// De-duplication: a sample that only repeats held ids at their recorded
/// positions moves nothing and presses nothing; when it also lacks no held id,
/// it leaves the state as it was and yields no event at all.
pub proof fn lemma_repeated_sample_is_silent(s: TouchArbiter, points: Seq<Point>)
    requires
        valid_sample(points),
        repeats(s, points),
    ensures
        count_kind(s.sample_step(points).1, EventKind::PointerMove) == 0,
        count_kind(s.sample_step(points).1, EventKind::PointerPress) == 0,
        (seen(points, 0) || !s.slot(0).active) && (seen(points, 1) || !s.slot(1).active)
            ==> s.sample_step(points) == (s, Seq::<WindowEvent>::empty()),
{
    lemma_points_step_repeat(s, points);
    let e = WindowEvent::PointerExited;
    let (s2, e2) = s.release_step(0, seen(points, 0));
    let (s3, e3) = s2.release_step(1, seen(points, 1));
    let r0 = WindowEvent::PointerReleased { x: s.slot(0).x, y: s.slot(0).y };
    let k0 = WindowEvent::KeyReleased { key: key_of(s.slot(0).x) };
    let r1 = WindowEvent::PointerReleased { x: s2.slot(1).x, y: s2.slot(1).y };
    let k1 = WindowEvent::KeyReleased { key: key_of(s2.slot(1).x) };
    lemma_count_small(r0, e, EventKind::PointerMove);
    lemma_count_small(k0, e, EventKind::PointerMove);
    lemma_count_small(r1, e, EventKind::PointerMove);
    lemma_count_small(k1, e, EventKind::PointerMove);
    lemma_count_small(r0, e, EventKind::PointerPress);
    lemma_count_small(k0, e, EventKind::PointerPress);
    lemma_count_small(r1, e, EventKind::PointerPress);
    lemma_count_small(k1, e, EventKind::PointerPress);
    let empty = Seq::<WindowEvent>::empty();
    lemma_count_concat(empty, e2, EventKind::PointerMove);
    lemma_count_concat(empty + e2, e3, EventKind::PointerMove);
    lemma_count_concat(empty, e2, EventKind::PointerPress);
    lemma_count_concat(empty + e2, e3, EventKind::PointerPress);
    if (seen(points, 0) || !s.slot(0).active) && (seen(points, 1) || !s.slot(1).active) {
        assert(empty + e2 + e3 =~= empty);
    }
}


/// Effect of a polling session: the samples handled in order.
pub open spec fn session_spec(s: TouchArbiter, samples: Seq<Seq<Point>>) -> (
    TouchArbiter,
    Seq<WindowEvent>,
)
    decreases samples.len(),
{
    if samples.len() == 0 {
        (s, seq![])
    } else {
        let (s1, e1) = session_spec(s, samples.drop_last());
        let (s2, e2) = s1.sample_step(samples.last());
        (s2, e1 + e2)
    }
}

proof fn lemma_session_balanced(s: TouchArbiter, samples: Seq<Seq<Point>>)
    requires
        forall|i: int| 0 <= i < samples.len() ==> valid_sample(#[trigger] samples[i]),
    ensures
        balanced(s, session_spec(s, samples).0, session_spec(s, samples).1),
    decreases samples.len(),
{
    if samples.len() == 0 {
        lemma_balanced_empty(s);
    } else {
        let pre = samples.drop_last();
        assert forall|i: int| 0 <= i < pre.len() implies valid_sample(#[trigger] pre[i]) by {
            assert(pre[i] == samples[i]);
        }
        lemma_session_balanced(s, pre);
        let (s1, e1) = session_spec(s, pre);
        assert(valid_sample(samples[samples.len() - 1]));
        lemma_sample_step_pairs_presses(s1, samples.last());
        lemma_balanced_chain(s, s1, s1.sample_step(samples.last()).0, e1, s1.sample_step(samples.last()).1);
    }
}

/// Pairing law over a polling session: starting with nothing held, a session
/// that ends on a sample with no point has emitted exactly one pointer release
/// and one pointer exit per pointer press, and exactly one release of each key
/// per press of that key.
pub proof fn lemma_session_pairs_presses(s: TouchArbiter, samples: Seq<Seq<Point>>)
    requires
        forall|i: int| 0 <= i < samples.len() ==> valid_sample(#[trigger] samples[i]),
        samples.len() > 0,
        samples.last().len() == 0,
        s.pointer_held() == 0,
        forall|k: TouchKey| #[trigger] s.key_held(k) == 0,
    ensures
        count_kind(session_spec(s, samples).1, EventKind::PointerPress) == count_kind(
            session_spec(s, samples).1,
            EventKind::PointerRelease,
        ),
        count_kind(session_spec(s, samples).1, EventKind::PointerExit) == count_kind(
            session_spec(s, samples).1,
            EventKind::PointerRelease,
        ),
        forall|k: TouchKey|
            count_kind(#[trigger] session_spec(s, samples).1, EventKind::KeyPress(k)) == count_kind(
                session_spec(s, samples).1,
                EventKind::KeyRelease(k),
            ),
{
    lemma_session_balanced(s, samples);
    let pre = samples.drop_last();
    let s1 = session_spec(s, pre).0;
    let last = samples.last();
    assert(valid_sample(samples[samples.len() - 1]));
    lemma_sample_step_pairs_presses(s1, last);
    let t = session_spec(s, samples).0;
    assert(!seen(last, 0));
    assert(!seen(last, 1));
    assert(!t.slot(0).active && !t.slot(1).active);
    assert(t.pointer_held() == 0);
    assert forall|k: TouchKey|
        count_kind(#[trigger] session_spec(s, samples).1, EventKind::KeyPress(k)) == count_kind(
            session_spec(s, samples).1,
            EventKind::KeyRelease(k),
        ) by {
        assert(t.key_held(k) == 0);
        assert(s.key_held(k) == 0);
    }
}


/// From `s` to `t`, id `i` keeps its zone: held as a key in `s`, it is either
/// released in `t` or still held at the same recorded contact and not the
/// pointer; holding the pointer in `s`, it is either released or still the
/// pointer.
pub open spec fn keeps_zone(s: TouchArbiter, t: TouchArbiter, i: int) -> bool {
    &&& (s.slot(i).active && s.pointer != Some(i as u8) && t.slot(i).active) ==> (t.slot(i)
        == s.slot(i) && t.pointer != Some(i as u8))
    &&& (s.slot(i).active && s.pointer == Some(i as u8) && t.slot(i).active) ==> t.pointer == Some(
        i as u8,
    )
}

proof fn lemma_points_step_keeps_zone(s: TouchArbiter, points: Seq<Point>, i: int)
    requires
        valid_sample(points),
        0 <= i < 2,
    ensures
        keeps_zone(s, s.points_step(points).0, i),
        s.slot(i).active ==> s.points_step(points).0.slot(i).active,
    decreases points.len(),
{
    if points.len() > 0 {
        let pre = points.drop_last();
        assert forall|k: int| 0 <= k < pre.len() implies (#[trigger] pre[k]).id < 2 by {
            assert(pre[k] == points[k]);
        }
        lemma_points_step_keeps_zone(s, pre, i);
        assert(points[points.len() - 1].id < 2);
    }
}

/// Zone law: over one polling iteration, a contact keeps the zone it was
/// first seen in. A held id that is still in the sample stays held; one held
/// as a key keeps its recorded contact, so it is released as the key it was
/// pressed as (a press records `x`, a key release uses `key_of` of the
/// recorded `x`), and never becomes the pointer; the pointer owner stays the
/// owner until it is released.
pub proof fn lemma_sample_step_keeps_zone(s: TouchArbiter, points: Seq<Point>, i: int)
    requires
        valid_sample(points),
        0 <= i < 2,
    ensures
        keeps_zone(s, s.sample_step(points).0, i),
        s.slot(i).active && seen(points, i) ==> s.sample_step(points).0.slot(i).active,
{
    lemma_points_step_keeps_zone(s, points, i);
}


/// Progress through the pointer event pattern (press, moves, release, exit)*,
/// with a release immediately followed by its exit: 0 idle, 1 held, 2
/// released and awaiting the exit; -1 once the pattern is broken.
pub open spec fn pointer_phase(st: int, e: WindowEvent) -> int {
    if st < 0 {
        -1
    } else {
        match e {
            WindowEvent::PointerPressed { .. } => if st == 0 {
                1
            } else {
                -1
            },
            WindowEvent::PointerMoved { .. } => if st == 1 {
                1
            } else {
                -1
            },
            WindowEvent::PointerReleased { .. } => if st == 1 {
                2
            } else {
                -1
            },
            WindowEvent::PointerExited => if st == 2 {
                0
            } else {
                -1
            },
            _ => if st == 2 {
                -1
            } else {
                st
            },
        }
    }
}

/// The pattern phase after the events `evs`, from phase `st`.
pub open spec fn pointer_run(st: int, evs: Seq<WindowEvent>) -> int
    decreases evs.len(),
{
    if evs.len() == 0 {
        st
    } else {
        pointer_phase(pointer_run(st, evs.drop_last()), evs.last())
    }
}

/// Every pointer press, move and release in `evs` lies in the gesture zone.
pub open spec fn pointer_in_gesture_zone(evs: Seq<WindowEvent>) -> bool {
    forall|k: int|
        0 <= k < evs.len() ==> match #[trigger] evs[k] {
            WindowEvent::PointerPressed { x, y } => y < 240,
            WindowEvent::PointerMoved { x, y } => y < 240,
            WindowEvent::PointerReleased { x, y } => y < 240,
            _ => true,
        }
}

proof fn lemma_run_concat(st: int, a: Seq<WindowEvent>, b: Seq<WindowEvent>)
    ensures
        pointer_run(st, a + b) == pointer_run(pointer_run(st, a), b),
    decreases b.len(),
{
    if b.len() == 0 {
        assert(a + b =~= a);
    } else {
        assert((a + b).drop_last() =~= a + b.drop_last());
        assert((a + b).last() == b.last());
        lemma_run_concat(st, a, b.drop_last());
    }
}

proof fn lemma_run_small(st: int, e: WindowEvent, f: WindowEvent)
    ensures
        pointer_run(st, seq![]) == st,
        pointer_run(st, seq![e]) == pointer_phase(st, e),
        pointer_run(st, seq![e, f]) == pointer_phase(pointer_phase(st, e), f),
{
    assert(seq![e].drop_last() =~= Seq::<WindowEvent>::empty());
    assert(seq![e, f].drop_last() =~= seq![e]);
    assert(seq![e].last() == e);
    assert(seq![e, f].last() == f);
    reveal_with_fuel(pointer_run, 3);
}

proof fn lemma_zone_concat(a: Seq<WindowEvent>, b: Seq<WindowEvent>)
    requires
        pointer_in_gesture_zone(a),
        pointer_in_gesture_zone(b),
    ensures
        pointer_in_gesture_zone(a + b),
{
    assert forall|k: int| 0 <= k < (a + b).len() implies match #[trigger] (a + b)[k] {
        WindowEvent::PointerPressed { x, y } => y < 240,
        WindowEvent::PointerMoved { x, y } => y < 240,
        WindowEvent::PointerReleased { x, y } => y < 240,
        _ => true,
    } by {
        if k < a.len() {
            assert((a + b)[k] == a[k]);
        } else {
            assert((a + b)[k] == b[k - a.len()]);
        }
    }
}

/// The pattern holds for `evs` from `s` to `t`; under the invariant, the
/// pointer events also lie in the gesture zone.
pub open spec fn pointer_pattern(s: TouchArbiter, t: TouchArbiter, evs: Seq<WindowEvent>) -> bool {
    &&& pointer_run(s.pointer_held(), evs) == t.pointer_held()
    &&& s.wf() ==> pointer_in_gesture_zone(evs)
}

proof fn lemma_pattern_chain(
    s: TouchArbiter,
    t: TouchArbiter,
    u: TouchArbiter,
    a: Seq<WindowEvent>,
    b: Seq<WindowEvent>,
)
    requires
        pointer_pattern(s, t, a),
        pointer_pattern(t, u, b),
        s.wf() ==> t.wf(),
    ensures
        pointer_pattern(s, u, a + b),
{
    lemma_run_concat(s.pointer_held(), a, b);
    if s.wf() {
        lemma_zone_concat(a, b);
    }
}

proof fn lemma_point_step_pattern(s: TouchArbiter, p: Point)
    requires
        p.id < 2,
    ensures
        pointer_pattern(s, s.point_step(p).0, s.point_step(p).1),
{
    let (t, evs) = s.point_step(p);
    let e = WindowEvent::PointerExited;
    if evs.len() == 0 {
        assert(evs =~= seq![]);
    } else {
        assert(evs =~= seq![evs[0]]);
    }
    lemma_run_small(s.pointer_held(), evs.first(), e);
}

proof fn lemma_release_step_pattern(s: TouchArbiter, i: int, present: bool)
    requires
        0 <= i < 2,
    ensures
        pointer_pattern(s, s.release_step(i, present).0, s.release_step(i, present).1),
{
    let e = WindowEvent::PointerExited;
    let r = WindowEvent::PointerReleased { x: s.slot(i).x, y: s.slot(i).y };
    let kr = WindowEvent::KeyReleased { key: key_of(s.slot(i).x) };
    lemma_run_small(s.pointer_held(), r, e);
    lemma_run_small(s.pointer_held(), kr, e);
}

proof fn lemma_points_step_pattern(s: TouchArbiter, points: Seq<Point>)
    requires
        valid_sample(points),
    ensures
        pointer_pattern(s, s.points_step(points).0, s.points_step(points).1),
    decreases points.len(),
{
    if points.len() == 0 {
        lemma_run_small(s.pointer_held(), WindowEvent::PointerExited, WindowEvent::PointerExited);
    } else {
        let pre = points.drop_last();
        assert forall|k: int| 0 <= k < pre.len() implies (#[trigger] pre[k]).id < 2 by {
            assert(pre[k] == points[k]);
        }
        lemma_points_step_pattern(s, pre);
        let (s1, e1) = s.points_step(pre);
        if s.wf() {
            lemma_points_step_wf(s, pre);
        }
        lemma_point_step_pattern(s1, points.last());
        lemma_pattern_chain(s, s1, s1.point_step(points.last()).0, e1, s1.point_step(points.last()).1);
    }
}

proof fn lemma_sample_step_pattern(s: TouchArbiter, points: Seq<Point>)
    requires
        valid_sample(points),
    ensures
        pointer_pattern(s, s.sample_step(points).0, s.sample_step(points).1),
{
    lemma_points_step_pattern(s, points);
    let (s1, e1) = s.points_step(points);
    if s.wf() {
        lemma_points_step_wf(s, points);
        lemma_release_step_wf(s1, 0, seen(points, 0));
    }
    lemma_release_step_pattern(s1, 0, seen(points, 0));
    let (s2, e2) = s1.release_step(0, seen(points, 0));
    lemma_release_step_pattern(s2, 1, seen(points, 1));
    let (s3, e3) = s2.release_step(1, seen(points, 1));
    lemma_pattern_chain(s, s1, s2, e1, e2);
    lemma_pattern_chain(s, s2, s3, e1 + e2, e3);
}

/// Pointer pattern law: from a fresh session state, the pointer events of a
/// polling session that ends on a sample with no point follow the pattern
/// (press, moves, release, exit)*, each release immediately followed by its
/// exit and the pattern complete at the end; every pointer press, move and
/// release lies in the gesture zone.
pub proof fn lemma_session_pointer_pattern(s: TouchArbiter, samples: Seq<Seq<Point>>)
    requires
        forall|i: int| 0 <= i < samples.len() ==> valid_sample(#[trigger] samples[i]),
        samples.len() > 0,
        samples.last().len() == 0,
        s.wf(),
        !s.slot(0).active,
        !s.slot(1).active,
    ensures
        pointer_run(0, session_spec(s, samples).1) == 0,
        pointer_in_gesture_zone(session_spec(s, samples).1),
{
    lemma_session_pattern(s, samples);
    lemma_session_balanced(s, samples);
    let pre = samples.drop_last();
    let s1 = session_spec(s, pre).0;
    assert(valid_sample(samples[samples.len() - 1]));
    lemma_sample_step_pairs_presses(s1, samples.last());
    assert(!seen(samples.last(), 0));
    assert(!seen(samples.last(), 1));
}

proof fn lemma_session_pattern(s: TouchArbiter, samples: Seq<Seq<Point>>)
    requires
        forall|i: int| 0 <= i < samples.len() ==> valid_sample(#[trigger] samples[i]),
    ensures
        pointer_pattern(s, session_spec(s, samples).0, session_spec(s, samples).1),
        s.wf() ==> session_spec(s, samples).0.wf(),
    decreases samples.len(),
{
    if samples.len() == 0 {
        lemma_run_small(s.pointer_held(), WindowEvent::PointerExited, WindowEvent::PointerExited);
    } else {
        let pre = samples.drop_last();
        assert forall|i: int| 0 <= i < pre.len() implies valid_sample(#[trigger] pre[i]) by {
            assert(pre[i] == samples[i]);
        }
        lemma_session_pattern(s, pre);
        let (s1, e1) = session_spec(s, pre);
        assert(valid_sample(samples[samples.len() - 1]));
        lemma_sample_step_pattern(s1, samples.last());
        if s1.wf() {
            lemma_sample_step_keeps_single_pointer(s1, samples.last());
        }
        lemma_pattern_chain(s, s1, s1.sample_step(samples.last()).0, e1, s1.sample_step(samples.last()).1);
    }
}


/// Every point of id `i` in the sample lies at the position recorded for `i`.
pub open spec fn stays_put(s: TouchArbiter, points: Seq<Point>, i: int) -> bool {
    forall|k: int|
        0 <= k < points.len() && (#[trigger] points[k]).id as int == i ==> points[k].x == s.slot(
            i,
        ).x && points[k].y == s.slot(i).y
}

proof fn lemma_points_step_owner_still(s: TouchArbiter, points: Seq<Point>, i: int)
    requires
        valid_sample(points),
        0 <= i < 2,
        s.pointer == Some(i as u8),
        s.slot(i).active,
        stays_put(s, points, i),
    ensures
        s.points_step(points).0.pointer == s.pointer,
        s.points_step(points).0.slot(i) == s.slot(i),
        count_kind(s.points_step(points).1, EventKind::PointerMove) == 0,
        count_kind(s.points_step(points).1, EventKind::PointerPress) == 0,
    decreases points.len(),
{
    let e = WindowEvent::PointerExited;
    if points.len() == 0 {
        lemma_count_small(e, e, EventKind::PointerMove);
        lemma_count_small(e, e, EventKind::PointerPress);
    } else {
        let pre = points.drop_last();
        assert forall|k: int| 0 <= k < pre.len() implies (#[trigger] pre[k]).id < 2 by {
            assert(pre[k] == points[k]);
        }
        assert forall|k: int|
            0 <= k < pre.len() && (#[trigger] pre[k]).id as int == i implies pre[k].x == s.slot(
                i,
            ).x && pre[k].y == s.slot(i).y by {
            assert(pre[k] == points[k]);
        }
        lemma_points_step_owner_still(s, pre, i);
        let (s1, e1) = s.points_step(pre);
        let p = points.last();
        assert(points[points.len() - 1] == p);
        let (s2, e2) = s1.point_step(p);
        if e2.len() == 0 {
            assert(e2 =~= seq![]);
        } else {
            assert(e2 =~= seq![e2[0]]);
        }
        lemma_count_small(e2.first(), e, EventKind::PointerMove);
        lemma_count_small(e2.first(), e, EventKind::PointerPress);
        lemma_count_concat(e1, e2, EventKind::PointerMove);
        lemma_count_concat(e1, e2, EventKind::PointerPress);
    }
}

/// De-duplication for the pointer owner: while the owner is held and every
/// point of its id in the sample repeats its recorded position, the iteration
/// sends no pointer press and no pointer move, whatever other ids the sample
/// holds; the owner and its recorded contact stay as they were unless it is
/// released.
pub proof fn lemma_still_pointer_sends_no_move(s: TouchArbiter, points: Seq<Point>, i: int)
    requires
        valid_sample(points),
        0 <= i < 2,
        s.pointer == Some(i as u8),
        s.slot(i).active,
        stays_put(s, points, i),
    ensures
        count_kind(s.sample_step(points).1, EventKind::PointerMove) == 0,
        count_kind(s.sample_step(points).1, EventKind::PointerPress) == 0,
        seen(points, i) ==> s.sample_step(points).0.pointer == s.pointer
            && s.sample_step(points).0.slot(i) == s.slot(i),
{
    lemma_points_step_owner_still(s, points, i);
    let (s1, e1) = s.points_step(points);
    let (s2, e2) = s1.release_step(0, seen(points, 0));
    let (s3, e3) = s2.release_step(1, seen(points, 1));
    let e = WindowEvent::PointerExited;
    let r0 = WindowEvent::PointerReleased { x: s1.slot(0).x, y: s1.slot(0).y };
    let k0 = WindowEvent::KeyReleased { key: key_of(s1.slot(0).x) };
    let r1 = WindowEvent::PointerReleased { x: s2.slot(1).x, y: s2.slot(1).y };
    let k1 = WindowEvent::KeyReleased { key: key_of(s2.slot(1).x) };
    lemma_count_small(r0, e, EventKind::PointerMove);
    lemma_count_small(k0, e, EventKind::PointerMove);
    lemma_count_small(r1, e, EventKind::PointerMove);
    lemma_count_small(k1, e, EventKind::PointerMove);
    lemma_count_small(r0, e, EventKind::PointerPress);
    lemma_count_small(k0, e, EventKind::PointerPress);
    lemma_count_small(r1, e, EventKind::PointerPress);
    lemma_count_small(k1, e, EventKind::PointerPress);
    lemma_count_concat(e1, e2, EventKind::PointerMove);
    lemma_count_concat(e1 + e2, e3, EventKind::PointerMove);
    lemma_count_concat(e1, e2, EventKind::PointerPress);
    lemma_count_concat(e1 + e2, e3, EventKind::PointerPress);
}

} // verus!

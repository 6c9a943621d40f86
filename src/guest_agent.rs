//! The guest side: the window registry and the diff engine that turns each new
//! snapshot into window events, and the process watcher's events.
use vstd::prelude::*;
pub use crate::message::{WindowMessage, WindowMessageView};
use crate::snapshot::{WindowRecord, WindowState, states, split_lines, lines_of, chars_views};
use crate::text::{chars_of, parse_u32, u32_text};

verus! {

/// Some record carries the id.
pub open spec fn has_id(r: Seq<WindowState>, id: u32) -> bool {
    exists|i: int| 0 <= i < r.len() && (#[trigger] r[i]).id == id
}

/// No two records carry the same id.
pub open spec fn unique_ids(r: Seq<WindowState>) -> bool {
    forall|i: int, j: int| 0 <= i < r.len() && 0 <= j < r.len() && i != j ==> (#[trigger] r[i]).id
        != (#[trigger] r[j]).id
}

/// The record with the given id, for an id that occurs.
pub open spec fn entry(r: Seq<WindowState>, id: u32) -> WindowState {
    r[choose|i: int| 0 <= i < r.len() && (#[trigger] r[i]).id == id]
}

pub open spec fn title_changed(old: WindowState, new: WindowState) -> bool {
    old.title != new.title
}

pub open spec fn size_changed(old: WindowState, new: WindowState) -> bool {
    old.width != new.width || old.height != new.height
}

pub open spec fn position_changed(old: WindowState, new: WindowState) -> bool {
    old.x != new.x || old.y != new.y
}

pub open spec fn shape_changed(old: WindowState, new: WindowState) -> bool {
    title_changed(old, new) || size_changed(old, new) || position_changed(old, new)
}

pub open spec fn created_msg(w: WindowState) -> WindowMessageView {
    WindowMessageView::WindowCreated {
        id: w.id,
        title: w.title,
        width: w.width,
        height: w.height,
        x: w.x,
        y: w.y,
        app_name: w.app_name,
    }
}

/// The change events for one window: title, then size, then position, each only
/// when that group of fields differs.
pub open spec fn change_msgs(old: WindowState, new: WindowState) -> Seq<WindowMessageView> {
    (if title_changed(old, new) {
        seq![WindowMessageView::WindowTitleChanged { id: new.id, title: new.title }]
    } else {
        Seq::empty()
    }) + (if size_changed(old, new) {
        seq![WindowMessageView::WindowResized { id: new.id, width: new.width, height: new.height }]
    } else {
        Seq::empty()
    }) + (if position_changed(old, new) {
        seq![WindowMessageView::WindowMoved { id: new.id, x: new.x, y: new.y }]
    } else {
        Seq::empty()
    })
}

/// A creation event for each snapshot window whose id the registry lacks, in snapshot order.
pub open spec fn created_events(r: Seq<WindowState>, s: Seq<WindowState>) -> Seq<WindowMessageView>
    decreases s.len(),
{
    if s.len() == 0 {
        Seq::empty()
    } else {
        created_events(r, s.drop_last()) + if !has_id(r, s.last().id) {
            seq![created_msg(s.last())]
        } else {
            Seq::empty()
        }
    }
}

/// A destruction event for each registry window whose id the snapshot lacks, in registry order.
pub open spec fn destroyed_events(r: Seq<WindowState>, s: Seq<WindowState>) -> Seq<
    WindowMessageView,
>
    decreases r.len(),
{
    if r.len() == 0 {
        Seq::empty()
    } else {
        destroyed_events(r.drop_last(), s) + if !has_id(s, r.last().id) {
            seq![WindowMessageView::WindowDestroyed { id: r.last().id }]
        } else {
            Seq::empty()
        }
    }
}

/// The change events of each snapshot window the registry already holds, in snapshot order.
pub open spec fn change_events(r: Seq<WindowState>, s: Seq<WindowState>) -> Seq<WindowMessageView>
    decreases s.len(),
{
    if s.len() == 0 {
        Seq::empty()
    } else {
        change_events(r, s.drop_last()) + if has_id(r, s.last().id) {
            change_msgs(entry(r, s.last().id), s.last())
        } else {
            Seq::empty()
        }
    }
}

/// The events of one tick: creations, then destructions, then field changes.
pub open spec fn diff_events(r: Seq<WindowState>, s: Seq<WindowState>) -> Seq<WindowMessageView> {
    created_events(r, s) + destroyed_events(r, s) + change_events(r, s)
}

/// The registry record kept for snapshot window `n`: the registry's own when
/// none of title, size and position changed, else the snapshot's.
pub open spec fn kept(r: Seq<WindowState>, n: WindowState) -> WindowState {
    if has_id(r, n.id) && !shape_changed(entry(r, n.id), n) {
        entry(r, n.id)
    } else {
        n
    }
}

/// The registry after a tick: one record for each snapshot window.
pub open spec fn next_registry(r: Seq<WindowState>, s: Seq<WindowState>) -> Seq<WindowState> {
    s.map_values(|n: WindowState| kept(r, n))
}

pub open spec fn msg_views(v: Seq<WindowMessage>) -> Seq<WindowMessageView> {
    v.map_values(|m: WindowMessage| m@)
}

/// With unique ids, the record found for a window's id is that window.
pub proof fn lemma_entry_at(r: Seq<WindowState>, i: int)
    requires
        unique_ids(r),
        0 <= i < r.len(),
    ensures
        has_id(r, r[i].id),
        entry(r, r[i].id) == r[i],
{
    let id = r[i].id;
    assert(has_id(r, id));
    let j = choose|j: int| 0 <= j < r.len() && (#[trigger] r[j]).id == id;
    assert(r[j].id == r[i].id);
}

fn find_index(v: &Vec<WindowRecord>, id: u32) -> (r: Option<usize>)
    ensures
        r is Some <==> has_id(states(v@), id),
        r is Some ==> r->0 < v@.len() && v@[r->0 as int].id == id,
{
    let mut i: usize = 0;
    while i < v.len()
        invariant
            i <= v@.len(),
            forall|k: int| 0 <= k < i ==> v@[k].id != id,
        decreases v.len() - i,
    {
        if v[i].id == id {
            assert(states(v@)[i as int].id == id);
            return Some(i);
        }
        i = i + 1;
    }
    assert(!has_id(states(v@), id)) by {
        if has_id(states(v@), id) {
            let k = choose|k: int| 0 <= k < states(v@).len() && (#[trigger] states(v@)[k]).id == id;
            assert(v@[k].id == id);
        }
    }
    None
}

/// Whether no two records share an id.
pub fn has_unique_ids(v: &Vec<WindowRecord>) -> (r: bool)
    ensures
        r == unique_ids(states(v@)),
{
    let ghost sv = states(v@);
    let mut i: usize = 0;
    while i < v.len()
        invariant
            i <= v@.len(),
            sv == states(v@),
            forall|a: int, b: int| 0 <= a < i && 0 <= b < v@.len() && a != b ==> v@[a].id != v@[b].id,
        decreases v.len() - i,
    {
        let mut j: usize = 0;
        while j < v.len()
            invariant
                i < v@.len(),
                j <= v@.len(),
                sv == states(v@),
                forall|a: int, b: int| 0 <= a < i && 0 <= b < v@.len() && a != b ==> v@[a].id != v@[b].id,
                forall|b: int| 0 <= b < j && b != i ==> v@[i as int].id != v@[b].id,
            decreases v.len() - j,
        {
            if j != i && v[i].id == v[j].id {
                assert(sv[i as int].id == sv[j as int].id);
                return false;
            }
            j = j + 1;
        }
        i = i + 1;
    }
    assert forall|a: int, b: int| 0 <= a < sv.len() && 0 <= b < sv.len() && a != b implies (
    #[trigger] sv[a]).id != (#[trigger] sv[b]).id by {
        assert(sv[a].id == v@[a].id && sv[b].id == v@[b].id);
    }
    true
}

fn created_message(w: &WindowRecord) -> (m: WindowMessage)
    ensures
        m@ == created_msg(w@),
{
    WindowMessage::WindowCreated {
        id: w.id,
        title: w.title.clone(),
        width: w.width,
        height: w.height,
        x: w.x,
        y: w.y,
        app_name: w.app_name.clone(),
    }
}

fn push_changes(events: &mut Vec<WindowMessage>, prev: &WindowRecord, new: &WindowRecord) -> (changed:
    bool)
    ensures
        msg_views(final(events)@) == msg_views(old(events)@) + change_msgs(prev@, new@),
        changed == shape_changed(prev@, new@),
{
    let ghost before = msg_views(events@);
    let t = prev.title != new.title;
    let sz = prev.width != new.width || prev.height != new.height;
    let pos = prev.x != new.x || prev.y != new.y;
    if t {
        events.push(WindowMessage::WindowTitleChanged { id: new.id, title: new.title.clone() });
    }
    if sz {
        events.push(WindowMessage::WindowResized { id: new.id, width: new.width, height: new.height });
    }
    if pos {
        events.push(WindowMessage::WindowMoved { id: new.id, x: new.x, y: new.y });
    }
    assert(msg_views(events@) =~= before + change_msgs(prev@, new@));
    t || sz || pos
}

/// The guest's window registry: the windows of the last snapshot, keyed by id.
pub struct GuestAgent {
    windows: Vec<WindowRecord>,
}

impl View for GuestAgent {
    type V = Seq<WindowState>;

    closed spec fn view(&self) -> Seq<WindowState> {
        states(self.windows@)
    }
}

impl GuestAgent {
    /// The registry holds each id once.
    pub open spec fn wf(&self) -> bool {
        unique_ids(self@)
    }

    /// An agent that has seen no window yet.
    pub fn new() -> (r: Self)
        ensures
            r@ == Seq::<WindowState>::empty(),
            r.wf(),
    {
        let r = GuestAgent { windows: Vec::new() };
        assert(r@ =~= Seq::<WindowState>::empty());
        r
    }

    /// The registered windows, in registry order.
    pub fn windows(&self) -> (r: &Vec<WindowRecord>)
        ensures
            states(r@) == self@,
    {
        &self.windows
    }

    /// Compares a snapshot with the registry, brings the registry up to date and
    /// returns the events that describe the difference.
    pub fn diff_snapshot(&mut self, snapshot: &Vec<WindowRecord>) -> (events: Vec<WindowMessage>)
        requires
            old(self).wf(),
            unique_ids(states(snapshot@)),
        ensures
            final(self).wf(),
            final(self)@ == next_registry(old(self)@, states(snapshot@)),
            msg_views(events@) == diff_events(old(self)@, states(snapshot@)),
    {
        let ghost r = self@;
        let ghost sn = states(snapshot@);
        let mut events: Vec<WindowMessage> = Vec::new();
        let mut i: usize = 0;
        assert(sn.take(0) =~= Seq::<WindowState>::empty());
        assert(msg_views(events@) =~= Seq::<WindowMessageView>::empty());
        while i < snapshot.len()
            invariant
                i <= snapshot@.len(),
                r == states(self.windows@),
                sn == states(snapshot@),
                msg_views(events@) == created_events(r, sn.take(i as int)),
            decreases snapshot.len() - i,
        {
            assert(sn.take(i + 1).drop_last() =~= sn.take(i as int));
            assert(sn.take(i + 1).last() == snapshot@[i as int]@);
            if find_index(&self.windows, snapshot[i].id).is_none() {
                let m = created_message(&snapshot[i]);
                assert(msg_views(events@.push(m)) =~= msg_views(events@).push(m@));
                events.push(m);
            } else {
                assert(created_events(r, sn.take(i + 1)) =~= created_events(r, sn.take(i as int)));
            }
            i = i + 1;
        }
        assert(sn.take(i as int) =~= sn);
        let ghost created = msg_views(events@);
        let mut j: usize = 0;
        assert(r.take(0) =~= Seq::<WindowState>::empty());
        assert(created + Seq::<WindowMessageView>::empty() =~= created);
        while j < self.windows.len()
            invariant
                j <= r.len(),
                r == states(self.windows@),
                sn == states(snapshot@),
                created == created_events(r, sn),
                msg_views(events@) == created + destroyed_events(r.take(j as int), sn),
            decreases self.windows.len() - j,
        {
            assert(r.take(j + 1).drop_last() =~= r.take(j as int));
            assert(r.take(j + 1).last() == self.windows@[j as int]@);
            let id = self.windows[j].id;
            if find_index(snapshot, id).is_none() {
                let m = WindowMessage::WindowDestroyed { id };
                assert(msg_views(events@.push(m)) =~= msg_views(events@).push(m@));
                events.push(m);
                assert(msg_views(events@) =~= created + destroyed_events(r.take(j + 1), sn));
            } else {
                assert(msg_views(events@) =~= created + destroyed_events(r.take(j + 1), sn));
            }
            j = j + 1;
        }
        assert(r.take(j as int) =~= r);
        let ghost before_changes = msg_views(events@);
        let mut next: Vec<WindowRecord> = Vec::new();
        let mut k: usize = 0;
        assert(before_changes + Seq::<WindowMessageView>::empty() =~= before_changes);
        assert(states(next@) =~= next_registry(r, sn.take(0)));
        while k < snapshot.len()
            invariant
                k <= snapshot@.len(),
                r == states(self.windows@),
                sn == states(snapshot@),
                unique_ids(r),
                before_changes == created_events(r, sn) + destroyed_events(r, sn),
                msg_views(events@) == before_changes + change_events(r, sn.take(k as int)),
                states(next@) == next_registry(r, sn.take(k as int)),
            decreases snapshot.len() - k,
        {
            let ghost pre = sn.take(k as int);
            assert(sn.take(k + 1).drop_last() =~= pre);
            assert(sn.take(k + 1).last() == snapshot@[k as int]@);
            let cur = &snapshot[k];
            let ghost old_next = states(next@);
            match find_index(&self.windows, cur.id) {
                Some(at) => {
                    proof {
                        lemma_entry_at(r, at as int);
                    }
                    let changed = push_changes(&mut events, &self.windows[at], cur);
                    assert(msg_views(events@) =~= before_changes + change_events(
                        r,
                        sn.take(k + 1),
                    ));
                    if changed {
                        next.push(cur.duplicate());
                    } else {
                        next.push(self.windows[at].duplicate());
                    }
                },
                None => {
                    assert(msg_views(events@) =~= before_changes + change_events(
                        r,
                        sn.take(k + 1),
                    ));
                    next.push(cur.duplicate());
                },
            }
            assert(next@.last()@ == kept(r, cur@));
            assert(states(next@) =~= old_next.push(kept(r, cur@)));
            assert(next_registry(r, sn.take(k + 1)) =~= next_registry(r, pre).push(kept(r, cur@)));
            k = k + 1;
        }
        assert(sn.take(k as int) =~= sn);
        proof {
            let nr = next_registry(r, sn);
            assert forall|a: int| 0 <= a < nr.len() implies (#[trigger] nr[a]).id == sn[a].id by {
                if has_id(r, sn[a].id) {
                    let c = choose|c: int| 0 <= c < r.len() && (#[trigger] r[c]).id == sn[a].id;
                }
            }
        }
        self.windows = next;
        events
    }

    /// One tick of the window watcher on a snapshot. A snapshot that names an id
    /// twice is refused, `None`, and leaves the registry as it was; otherwise as
    /// `diff_snapshot`.
    pub fn scan_windows(&mut self, snapshot: &Vec<WindowRecord>) -> (events: Option<Vec<WindowMessage>>)
        requires
            old(self).wf(),
        ensures
            final(self).wf(),
            events is Some <==> unique_ids(states(snapshot@)),
            events is Some ==> final(self)@ == next_registry(old(self)@, states(snapshot@))
                && msg_views(events->0@) == diff_events(old(self)@, states(snapshot@)),
            events is None ==> final(self)@ == old(self)@,
    {
        if has_unique_ids(snapshot) {
            Some(self.diff_snapshot(snapshot))
        } else {
            None
        }
    }
}

/// The process watcher's events for one listing of matching process ids, one
/// id per line: an `ApplicationStarted` named `detected` for each line that
/// reads as a process id, in order. Every tick reports every running match
/// again, and no `ApplicationStopped` is ever produced.
pub open spec fn started_events(ls: Seq<Seq<char>>) -> Seq<WindowMessageView>
    decreases ls.len(),
{
    if ls.len() == 0 {
        Seq::empty()
    } else {
        let prev = started_events(ls.drop_last());
        match u32_text(ls.last(), false) {
            Some(pid) => prev.push(
                WindowMessageView::ApplicationStarted { app_name: "detected"@, pid },
            ),
            None => prev,
        }
    }
}

/// The events of one process-watcher tick, from the listing of matching process ids.
pub fn application_events(pid_listing: &str) -> (events: Vec<WindowMessage>)
    ensures
        msg_views(events@) == started_events(lines_of(pid_listing@)),
{
    let s = chars_of(pid_listing);
    let lines = split_lines(&s);
    let ghost ls = lines_of(pid_listing@);
    let mut events: Vec<WindowMessage> = Vec::new();
    let mut i: usize = 0;
    while i < lines.len()
        invariant
            i <= lines@.len(),
            chars_views(lines@) == ls,
            msg_views(events@) == started_events(ls.take(i as int)),
        decreases lines.len() - i,
    {
        assert(ls.take(i + 1).drop_last() =~= ls.take(i as int));
        assert(ls.take(i + 1).last() == lines@[i as int]@);
        match parse_u32(lines[i].as_slice(), false) {
            Some(pid) => {
                let m = WindowMessage::ApplicationStarted {
                    app_name: String::from_str("detected"),
                    pid,
                };
                assert(msg_views(events@.push(m)) =~= msg_views(events@).push(m@));
                events.push(m);
            },
            None => {},
        }
        i = i + 1;
    }
    assert(ls.take(i as int) =~= ls);
    events
}

} // verus!

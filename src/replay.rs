//! How guest and host stay in step: the events one diff emits, applied in order
//! to a host registry holding the guest's previous windows, reproduce the new
//! snapshot's windows.
use vstd::prelude::*;
use crate::message::WindowMessageView;
use crate::snapshot::WindowState;
use crate::guest_agent::{
    has_id,
    unique_ids,
    entry,
    created_msg,
    change_msgs,
    created_events,
    destroyed_events,
    change_events,
    diff_events,
    next_registry,
};
use crate::window_proxy::{ProxiedState, apply_event, surface_requests};

verus! {

/// The registry after a sequence of inbound messages, applied in order.
pub open spec fn apply_all(m: Map<u32, ProxiedState>, es: Seq<WindowMessageView>) -> Map<
    u32,
    ProxiedState,
>
    decreases es.len(),
{
    if es.len() == 0 {
        m
    } else {
        apply_event(apply_all(m, es.drop_last()), es.last())
    }
}

/// Title, width, height, x and y.
pub open spec fn state_shape(p: ProxiedState) -> (Seq<char>, u32, u32, i32, i32) {
    (p.title, p.width, p.height, p.x, p.y)
}

pub open spec fn window_shape(w: WindowState) -> (Seq<char>, u32, u32, i32, i32) {
    (w.title, w.width, w.height, w.x, w.y)
}

/// A guest window as a freshly created host entry.
pub open spec fn projected(w: WindowState) -> ProxiedState {
    ProxiedState {
        title: w.title,
        width: w.width,
        height: w.height,
        x: w.x,
        y: w.y,
        app_name: w.app_name,
        focused: false,
    }
}

/// A host registry holding exactly the given guest windows.
pub open spec fn seeded(r: Seq<WindowState>) -> Map<u32, ProxiedState> {
    Map::new(|id: u32| has_id(r, id), |id: u32| projected(entry(r, id)))
}

pub open spec fn host_shapes(m: Map<u32, ProxiedState>) -> Map<u32, (Seq<char>, u32, u32, i32, i32)> {
    m.map_values(|p: ProxiedState| state_shape(p))
}

pub open spec fn snapshot_shapes(s: Seq<WindowState>) -> Map<u32, (Seq<char>, u32, u32, i32, i32)> {
    Map::new(|id: u32| has_id(s, id), |id: u32| window_shape(entry(s, id)))
}

/// The id an event is about, if any.
pub open spec fn event_id(e: WindowMessageView) -> Option<u32> {
    match e {
        WindowMessageView::WindowCreated { id, .. } => Some(id),
        WindowMessageView::WindowDestroyed { id } => Some(id),
        WindowMessageView::WindowMoved { id, .. } => Some(id),
        WindowMessageView::WindowResized { id, .. } => Some(id),
        WindowMessageView::WindowTitleChanged { id, .. } => Some(id),
        WindowMessageView::WindowFocusChanged { id, .. } => Some(id),
        _ => None,
    }
}

/// The id an update event (move, resize, retitle, focus) is about, if it is one.
pub open spec fn update_id(e: WindowMessageView) -> Option<u32> {
    match e {
        WindowMessageView::WindowMoved { id, .. } => Some(id),
        WindowMessageView::WindowResized { id, .. } => Some(id),
        WindowMessageView::WindowTitleChanged { id, .. } => Some(id),
        WindowMessageView::WindowFocusChanged { id, .. } => Some(id),
        _ => None,
    }
}

/// An update for a window the host registry does not hold leaves the registry
/// as it was and asks for no native change.
pub proof fn lemma_unknown_id_ignored(m: Map<u32, ProxiedState>, e: WindowMessageView)
    requires
        update_id(e) is Some,
        !m.contains_key(update_id(e)->0),
    ensures
        apply_event(m, e) == m,
        surface_requests(m, e) == Seq::<crate::window_proxy::SurfaceRequestView>::empty(),
{
}

/// A tick whose snapshot holds the same windows as the registry, field for
/// field, emits no event and leaves the registry holding the same windows.
pub proof fn lemma_no_op_tick(r: Seq<WindowState>, s: Seq<WindowState>)
    requires
        unique_ids(r),
        unique_ids(s),
        r.to_set() == s.to_set(),
    ensures
        diff_events(r, s) == Seq::<WindowMessageView>::empty(),
        next_registry(r, s) == s,
        next_registry(r, s).to_set() == r.to_set(),
{
    assert forall|i: int| 0 <= i < s.len() implies has_id(r, (#[trigger] s[i]).id) && entry(
        r,
        s[i].id,
    ) == s[i] by {
        assert(s.to_set().contains(s[i]));
        assert(r.to_set().contains(s[i]));
        let j = choose|j: int| 0 <= j < r.len() && r[j] == s[i];
        crate::guest_agent::lemma_entry_at(r, j);
    }
    assert forall|j: int| 0 <= j < r.len() implies has_id(s, (#[trigger] r[j]).id) by {
        assert(r.to_set().contains(r[j]));
        assert(s.to_set().contains(r[j]));
        let i = choose|i: int| 0 <= i < s.len() && s[i] == r[j];
        assert(s[i].id == r[j].id);
    }
    lemma_no_created(r, s);
    lemma_no_destroyed(r, s);
    lemma_no_changes(r, s);
    assert(next_registry(r, s) =~= s);
    assert(diff_events(r, s) =~= Seq::<WindowMessageView>::empty());
}

proof fn lemma_no_created(r: Seq<WindowState>, s: Seq<WindowState>)
    requires
        forall|i: int| 0 <= i < s.len() ==> has_id(r, (#[trigger] s[i]).id),
    ensures
        created_events(r, s) == Seq::<WindowMessageView>::empty(),
    decreases s.len(),
{
    if s.len() > 0 {
        let p = s.drop_last();
        assert forall|i: int| 0 <= i < p.len() implies has_id(r, (#[trigger] p[i]).id) by {
            assert(p[i] == s[i]);
        }
        lemma_no_created(r, p);
        assert(has_id(r, s[s.len() - 1].id));
        assert(created_events(r, s) =~= Seq::<WindowMessageView>::empty());
    }
}

proof fn lemma_no_destroyed(r: Seq<WindowState>, s: Seq<WindowState>)
    requires
        forall|j: int| 0 <= j < r.len() ==> has_id(s, (#[trigger] r[j]).id),
    ensures
        destroyed_events(r, s) == Seq::<WindowMessageView>::empty(),
    decreases r.len(),
{
    if r.len() > 0 {
        let p = r.drop_last();
        assert forall|j: int| 0 <= j < p.len() implies has_id(s, (#[trigger] p[j]).id) by {
            assert(p[j] == r[j]);
        }
        lemma_no_destroyed(p, s);
        assert(has_id(s, r[r.len() - 1].id));
        assert(destroyed_events(r, s) =~= Seq::<WindowMessageView>::empty());
    }
}

proof fn lemma_no_changes(r: Seq<WindowState>, s: Seq<WindowState>)
    requires
        forall|i: int|
            0 <= i < s.len() ==> has_id(r, (#[trigger] s[i]).id) && entry(r, s[i].id) == s[i],
    ensures
        change_events(r, s) == Seq::<WindowMessageView>::empty(),
    decreases s.len(),
{
    if s.len() > 0 {
        let p = s.drop_last();
        assert forall|i: int|
            0 <= i < p.len() implies has_id(r, (#[trigger] p[i]).id) && entry(r, p[i].id)
            == p[i] by {
            assert(p[i] == s[i]);
        }
        lemma_no_changes(r, p);
        let l = s[s.len() - 1];
        assert(entry(r, l.id) == l);
        assert(change_msgs(l, l) =~= Seq::<WindowMessageView>::empty());
        assert(change_events(r, s) =~= Seq::<WindowMessageView>::empty());
    }
}

proof fn lemma_apply_concat(m: Map<u32, ProxiedState>, a: Seq<WindowMessageView>, b: Seq<
    WindowMessageView,
>)
    ensures
        apply_all(m, a + b) == apply_all(apply_all(m, a), b),
    decreases b.len(),
{
    if b.len() == 0 {
        assert(a + b =~= a);
    } else {
        assert((a + b).drop_last() =~= a + b.drop_last());
        assert((a + b).last() == b.last());
        lemma_apply_concat(m, a, b.drop_last());
    }
}

proof fn lemma_apply_one(m: Map<u32, ProxiedState>, e: WindowMessageView)
    ensures
        apply_all(m, seq![e]) == apply_event(m, e),
{
    let one = seq![e];
    assert(one.drop_last() =~= Seq::<WindowMessageView>::empty());
    assert(apply_all(m, one.drop_last()) == m);
    assert(one.last() == e);
}

proof fn lemma_has_id_last(s: Seq<WindowState>, k: u32)
    requires
        s.len() > 0,
    ensures
        has_id(s, k) <==> has_id(s.drop_last(), k) || s.last().id == k,
{
    let p = s.drop_last();
    if has_id(s, k) {
        let i = choose|i: int| 0 <= i < s.len() && (#[trigger] s[i]).id == k;
        if i < p.len() {
            assert(p[i] == s[i]);
        }
    }
    if has_id(p, k) {
        let i = choose|i: int| 0 <= i < p.len() && (#[trigger] p[i]).id == k;
        assert(s[i] == p[i]);
    }
    if s.last().id == k {
        assert(s[s.len() - 1].id == k);
    }
}

proof fn lemma_unique_prefix(s: Seq<WindowState>)
    requires
        s.len() > 0,
        unique_ids(s),
    ensures
        unique_ids(s.drop_last()),
        !has_id(s.drop_last(), s.last().id),
        forall|k: u32|
            #[trigger] has_id(s.drop_last(), k) ==> entry(s.drop_last(), k) == entry(s, k),
{
    let p = s.drop_last();
    assert forall|i: int, j: int|
        0 <= i < p.len() && 0 <= j < p.len() && i != j implies (#[trigger] p[i]).id != (
        #[trigger] p[j]).id by {
        assert(p[i] == s[i] && p[j] == s[j]);
    }
    if has_id(p, s.last().id) {
        let i = choose|i: int| 0 <= i < p.len() && (#[trigger] p[i]).id == s.last().id;
        assert(s[i] == p[i]);
        assert(s[i].id == s[s.len() - 1].id);
    }
    assert forall|k: u32| #[trigger] has_id(p, k) implies entry(p, k) == entry(s, k) by {
        let i = choose|i: int| 0 <= i < p.len() && (#[trigger] p[i]).id == k;
        crate::guest_agent::lemma_entry_at(p, i);
        assert(s[i] == p[i]);
        crate::guest_agent::lemma_entry_at(s, i);
    }
}

pub open spec fn after_creations(m: Map<u32, ProxiedState>, r: Seq<WindowState>, s: Seq<WindowState>) -> bool {
    forall|k: u32|
        {
            &&& #[trigger] m.contains_key(k) <==> (has_id(r, k) || has_id(s, k))
            &&& has_id(r, k) ==> m[k] == projected(entry(r, k))
            &&& !has_id(r, k) && has_id(s, k) ==> m[k] == projected(entry(s, k))
        }
}

proof fn lemma_creations(r: Seq<WindowState>, s: Seq<WindowState>)
    requires
        unique_ids(s),
    ensures
        after_creations(apply_all(seeded(r), created_events(r, s)), r, s),
    decreases s.len(),
{
    if s.len() == 0 {
        assert forall|k: u32| !has_id(s, k) by {}
    } else {
        let p = s.drop_last();
        let l = s.last();
        lemma_unique_prefix(s);
        lemma_creations(r, p);
        let m1 = apply_all(seeded(r), created_events(r, p));
        let x = if !has_id(r, l.id) {
            seq![created_msg(l)]
        } else {
            Seq::<WindowMessageView>::empty()
        };
        assert(created_events(r, s) == created_events(r, p) + x);
        lemma_apply_concat(seeded(r), created_events(r, p), x);
        let m = apply_all(m1, x);
        if !has_id(r, l.id) {
            lemma_apply_one(m1, created_msg(l));
            assert(m == m1.insert(l.id, projected(l)));
        } else {
            assert(m == m1);
        }
        assert(s[s.len() - 1] == l);
        crate::guest_agent::lemma_entry_at(s, s.len() - 1);
        assert forall|k: u32|
            {
                &&& #[trigger] m.contains_key(k) <==> (has_id(r, k) || has_id(s, k))
                &&& has_id(r, k) ==> m[k] == projected(entry(r, k))
                &&& !has_id(r, k) && has_id(s, k) ==> m[k] == projected(entry(s, k))
            } by {
            lemma_has_id_last(s, k);
            assert(m1.contains_key(k) <==> (has_id(r, k) || has_id(p, k)));
        }
    }
}

proof fn lemma_destructions(m: Map<u32, ProxiedState>, rr: Seq<WindowState>, s: Seq<WindowState>)
    ensures
        forall|k: u32|
            {
                &&& #[trigger] apply_all(m, destroyed_events(rr, s)).contains_key(k) <==> (
                m.contains_key(k) && !(has_id(rr, k) && !has_id(s, k)))
                &&& apply_all(m, destroyed_events(rr, s)).contains_key(k) ==> apply_all(
                    m,
                    destroyed_events(rr, s),
                )[k] == m[k]
            },
    decreases rr.len(),
{
    if rr.len() == 0 {
    } else {
        let p = rr.drop_last();
        let l = rr.last();
        lemma_destructions(m, p, s);
        let m1 = apply_all(m, destroyed_events(p, s));
        let x = if !has_id(s, l.id) {
            seq![WindowMessageView::WindowDestroyed { id: l.id }]
        } else {
            Seq::<WindowMessageView>::empty()
        };
        assert(destroyed_events(rr, s) == destroyed_events(p, s) + x);
        lemma_apply_concat(m, destroyed_events(p, s), x);
        let m2 = apply_all(m1, x);
        if !has_id(s, l.id) {
            lemma_apply_one(m1, WindowMessageView::WindowDestroyed { id: l.id });
            assert(m2 == m1.remove(l.id));
        } else {
            assert(m2 == m1);
        }
        assert forall|k: u32|
            {
                &&& #[trigger] m2.contains_key(k) <==> (m.contains_key(k) && !(has_id(rr, k)
                    && !has_id(s, k)))
                &&& m2.contains_key(k) ==> m2[k] == m[k]
            } by {
            lemma_has_id_last(rr, k);
            assert(m1.contains_key(k) <==> (m.contains_key(k) && !(has_id(p, k) && !has_id(s, k))));
        }
    }
}

proof fn lemma_one_window_changes(m: Map<u32, ProxiedState>, prev: WindowState, new: WindowState)
    requires
        m.contains_key(new.id),
        state_shape(m[new.id]) == window_shape(prev),
    ensures
        apply_all(m, change_msgs(prev, new)).dom() == m.dom(),
        state_shape(apply_all(m, change_msgs(prev, new))[new.id]) == window_shape(new),
        forall|k: u32|
            k != new.id && #[trigger] m.contains_key(k) ==> apply_all(m, change_msgs(prev, new))[k]
                == m[k],
{
    let id = new.id;
    let a = if prev.title != new.title {
        seq![WindowMessageView::WindowTitleChanged { id, title: new.title }]
    } else {
        Seq::<WindowMessageView>::empty()
    };
    let b = if prev.width != new.width || prev.height != new.height {
        seq![WindowMessageView::WindowResized { id, width: new.width, height: new.height }]
    } else {
        Seq::<WindowMessageView>::empty()
    };
    let c = if prev.x != new.x || prev.y != new.y {
        seq![WindowMessageView::WindowMoved { id, x: new.x, y: new.y }]
    } else {
        Seq::<WindowMessageView>::empty()
    };
    assert(change_msgs(prev, new) == a + b + c);
    lemma_apply_concat(m, a + b, c);
    lemma_apply_concat(m, a, b);
    let ma = apply_all(m, a);
    let mb = apply_all(ma, b);
    let mc = apply_all(mb, c);
    if a.len() > 0 {
        lemma_apply_one(m, a[0]);
    }
    assert(ma.dom() =~= m.dom());
    assert(state_shape(ma[id]) == (new.title, prev.width, prev.height, prev.x, prev.y));
    if b.len() > 0 {
        lemma_apply_one(ma, b[0]);
    }
    assert(mb.dom() =~= m.dom());
    assert(state_shape(mb[id]) == (new.title, new.width, new.height, prev.x, prev.y));
    if c.len() > 0 {
        lemma_apply_one(mb, c[0]);
    }
    assert(mc.dom() =~= m.dom());
}

pub open spec fn after_changes(
    m2: Map<u32, ProxiedState>,
    m: Map<u32, ProxiedState>,
    r: Seq<WindowState>,
    ss: Seq<WindowState>,
) -> bool {
    forall|k: u32|
        {
            &&& #[trigger] m.contains_key(k) <==> m2.contains_key(k)
            &&& m.contains_key(k) ==> if has_id(ss, k) && has_id(r, k) {
                state_shape(m[k]) == window_shape(entry(ss, k))
            } else {
                m[k] == m2[k]
            }
        }
}

proof fn lemma_changes(m2: Map<u32, ProxiedState>, r: Seq<WindowState>, ss: Seq<WindowState>)
    requires
        unique_ids(ss),
        forall|k: u32|
            has_id(ss, k) && #[trigger] has_id(r, k) ==> m2.contains_key(k) && state_shape(m2[k])
                == window_shape(entry(r, k)),
    ensures
        after_changes(m2, apply_all(m2, change_events(r, ss)), r, ss),
    decreases ss.len(),
{
    if ss.len() == 0 {
    } else {
        let p = ss.drop_last();
        let l = ss.last();
        lemma_unique_prefix(ss);
        assert forall|k: u32|
            has_id(p, k) && #[trigger] has_id(r, k) implies m2.contains_key(k) && state_shape(m2[k])
            == window_shape(entry(r, k)) by {
            lemma_has_id_last(ss, k);
        }
        lemma_changes(m2, r, p);
        let m1 = apply_all(m2, change_events(r, p));
        let x = if has_id(r, l.id) {
            change_msgs(entry(r, l.id), l)
        } else {
            Seq::<WindowMessageView>::empty()
        };
        assert(change_events(r, ss) == change_events(r, p) + x);
        lemma_apply_concat(m2, change_events(r, p), x);
        let m = apply_all(m1, x);
        assert(ss[ss.len() - 1] == l);
        crate::guest_agent::lemma_entry_at(ss, ss.len() - 1);
        lemma_has_id_last(ss, l.id);
        if has_id(r, l.id) {
            assert(m1.contains_key(l.id) <==> m2.contains_key(l.id));
            lemma_one_window_changes(m1, entry(r, l.id), l);
        }
        assert forall|k: u32|
            {
                &&& #[trigger] m.contains_key(k) <==> m2.contains_key(k)
                &&& m.contains_key(k) ==> if has_id(ss, k) && has_id(r, k) {
                    state_shape(m[k]) == window_shape(entry(ss, k))
                } else {
                    m[k] == m2[k]
                }
            } by {
            lemma_has_id_last(ss, k);
            assert(m1.contains_key(k) <==> m2.contains_key(k));
        }
    }
}

/// Diff completeness: replaying the events of one tick, in order, on a host
/// registry that holds the registry's windows yields exactly the snapshot's
/// windows, with their titles, sizes and positions; and the guest registry
/// itself then holds the snapshot's windows with those same fields.
pub proof fn lemma_diff_replay(r: Seq<WindowState>, s: Seq<WindowState>)
    requires
        unique_ids(r),
        unique_ids(s),
    ensures
        host_shapes(apply_all(seeded(r), diff_events(r, s))) == snapshot_shapes(s),
        next_registry(r, s).len() == s.len(),
        forall|i: int|
            0 <= i < s.len() ==> (#[trigger] next_registry(r, s)[i]).id == s[i].id
                && window_shape(next_registry(r, s)[i]) == window_shape(s[i]),
{
    assert forall|i: int| 0 <= i < s.len() implies (#[trigger] next_registry(r, s)[i]).id
        == s[i].id && window_shape(next_registry(r, s)[i]) == window_shape(s[i]) by {
        if has_id(r, s[i].id) {
            let c = choose|c: int| 0 <= c < r.len() && (#[trigger] r[c]).id == s[i].id;
        }
    }
    let m1 = apply_all(seeded(r), created_events(r, s));
    lemma_creations(r, s);
    let m2 = apply_all(m1, destroyed_events(r, s));
    lemma_destructions(m1, r, s);
    assert forall|k: u32| has_id(s, k) && #[trigger] has_id(r, k) implies m2.contains_key(k)
        && state_shape(m2[k]) == window_shape(entry(r, k)) by {
        assert(m1.contains_key(k));
        assert(m2.contains_key(k));
    }
    lemma_changes(m2, r, s);
    let m3 = apply_all(m2, change_events(r, s));
    lemma_apply_concat(seeded(r), created_events(r, s), destroyed_events(r, s));
    lemma_apply_concat(
        seeded(r),
        created_events(r, s) + destroyed_events(r, s),
        change_events(r, s),
    );
    assert(apply_all(seeded(r), diff_events(r, s)) == m3);
    assert forall|k: u32| #[trigger] m3.contains_key(k) <==> has_id(s, k) by {
        assert(m3.contains_key(k) <==> m2.contains_key(k));
        assert(m1.contains_key(k) <==> (has_id(r, k) || has_id(s, k)));
    }
    assert forall|k: u32| #[trigger] has_id(s, k) implies state_shape(m3[k]) == window_shape(
        entry(s, k),
    ) by {
        assert(m3.contains_key(k));
        if !has_id(r, k) {
            assert(m1.contains_key(k));
            assert(m2.contains_key(k));
        }
    }
    assert(host_shapes(m3) =~= snapshot_shapes(s));
}

} // verus!

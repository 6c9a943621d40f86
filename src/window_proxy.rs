//! The host side: the registry of mirrored guest windows, fed only by inbound
//! messages, and the shared clipboard value.
use vstd::prelude::*;
pub use crate::message::{WindowMessage, ClipboardMessage};
use crate::message::{WindowMessageView, ClipboardMessageView};

verus! {

/// A guest window as mirrored on the host.
#[derive(Debug, Clone, PartialEq, Eq)]
pub struct ProxiedWindow {
    pub vm_window_id: u32,
    pub title: String,
    pub width: u32,
    pub height: u32,
    pub x: i32,
    pub y: i32,
    pub app_name: String,
    pub focused: bool,
}

/// What the host registry keeps of one mirrored window.
pub struct ProxiedState {
    pub title: Seq<char>,
    pub width: u32,
    pub height: u32,
    pub x: i32,
    pub y: i32,
    pub app_name: Seq<char>,
    pub focused: bool,
}

pub open spec fn proxied_state(w: ProxiedWindow) -> ProxiedState {
    ProxiedState {
        title: w.title@,
        width: w.width,
        height: w.height,
        x: w.x,
        y: w.y,
        app_name: w.app_name@,
        focused: w.focused,
    }
}

/// A change that the host's display layer is asked to make to a native window.
#[derive(Debug, Clone, PartialEq, Eq)]
pub enum SurfaceRequest {
    Create { id: u32, title: String, width: u32, height: u32 },
    Resize { id: u32, width: u32, height: u32 },
    Retitle { id: u32, title: String },
    Destroy { id: u32 },
}

/// `SurfaceRequest` with its text seen as characters.
pub enum SurfaceRequestView {
    Create { id: u32, title: Seq<char>, width: u32, height: u32 },
    Resize { id: u32, width: u32, height: u32 },
    Retitle { id: u32, title: Seq<char> },
    Destroy { id: u32 },
}

impl View for SurfaceRequest {
    type V = SurfaceRequestView;

    open spec fn view(&self) -> SurfaceRequestView {
        match self {
            SurfaceRequest::Create { id, title, width, height } => SurfaceRequestView::Create {
                id: *id,
                title: title@,
                width: *width,
                height: *height,
            },
            SurfaceRequest::Resize { id, width, height } => SurfaceRequestView::Resize {
                id: *id,
                width: *width,
                height: *height,
            },
            SurfaceRequest::Retitle { id, title } => SurfaceRequestView::Retitle {
                id: *id,
                title: title@,
            },
            SurfaceRequest::Destroy { id } => SurfaceRequestView::Destroy { id: *id },
        }
    }
}

pub open spec fn request_views(v: Seq<SurfaceRequest>) -> Seq<SurfaceRequestView> {
    v.map_values(|r: SurfaceRequest| r@)
}

/// The registry after one inbound message. Updates for an id the registry
/// lacks change nothing; application events change nothing.
pub open spec fn apply_event(m: Map<u32, ProxiedState>, e: WindowMessageView) -> Map<
    u32,
    ProxiedState,
> {
    match e {
        WindowMessageView::WindowCreated { id, title, width, height, x, y, app_name } => m.insert(
            id,
            ProxiedState { title, width, height, x, y, app_name, focused: false },
        ),
        WindowMessageView::WindowDestroyed { id } => m.remove(id),
        WindowMessageView::WindowMoved { id, x, y } => if m.contains_key(id) {
            m.insert(id, ProxiedState { x, y, ..m[id] })
        } else {
            m
        },
        WindowMessageView::WindowResized { id, width, height } => if m.contains_key(id) {
            m.insert(id, ProxiedState { width, height, ..m[id] })
        } else {
            m
        },
        WindowMessageView::WindowTitleChanged { id, title } => if m.contains_key(id) {
            m.insert(id, ProxiedState { title, ..m[id] })
        } else {
            m
        },
        WindowMessageView::WindowFocusChanged { id, focused } => if m.contains_key(id) {
            m.insert(id, ProxiedState { focused, ..m[id] })
        } else {
            m
        },
        _ => m,
    }
}

/// The native changes one inbound message asks for. A creation for an id already
/// mirrored first tears the old window down.
pub open spec fn surface_requests(m: Map<u32, ProxiedState>, e: WindowMessageView) -> Seq<
    SurfaceRequestView,
> {
    match e {
        WindowMessageView::WindowCreated { id, title, width, height, .. } => {
            let create = SurfaceRequestView::Create { id, title, width, height };
            if m.contains_key(id) {
                seq![SurfaceRequestView::Destroy { id }, create]
            } else {
                seq![create]
            }
        },
        WindowMessageView::WindowDestroyed { id } => if m.contains_key(id) {
            seq![SurfaceRequestView::Destroy { id }]
        } else {
            Seq::empty()
        },
        WindowMessageView::WindowResized { id, width, height } => if m.contains_key(id) {
            seq![SurfaceRequestView::Resize { id, width, height }]
        } else {
            Seq::empty()
        },
        WindowMessageView::WindowTitleChanged { id, title } => if m.contains_key(id) {
            seq![SurfaceRequestView::Retitle { id, title }]
        } else {
            Seq::empty()
        },
        _ => Seq::empty(),
    }
}

pub open spec fn window_ids_unique(v: Seq<ProxiedWindow>) -> bool {
    forall|i: int, j: int|
        0 <= i < v.len() && 0 <= j < v.len() && i != j ==> (#[trigger] v[i]).vm_window_id
            != (#[trigger] v[j]).vm_window_id
}

pub open spec fn holds_id(v: Seq<ProxiedWindow>, id: u32) -> bool {
    exists|i: int| 0 <= i < v.len() && (#[trigger] v[i]).vm_window_id == id
}

/// The registry's windows keyed by guest window id.
pub open spec fn registry_map(v: Seq<ProxiedWindow>) -> Map<u32, ProxiedState> {
    Map::new(
        |id: u32| holds_id(v, id),
        |id: u32|
            proxied_state(v[choose|i: int| 0 <= i < v.len() && (#[trigger] v[i]).vm_window_id == id]),
    )
}

proof fn lemma_registry_at(v: Seq<ProxiedWindow>, i: int)
    requires
        window_ids_unique(v),
        0 <= i < v.len(),
    ensures
        registry_map(v).contains_key(v[i].vm_window_id),
        registry_map(v)[v[i].vm_window_id] == proxied_state(v[i]),
{
    let id = v[i].vm_window_id;
    assert(holds_id(v, id));
    let j = choose|j: int| 0 <= j < v.len() && (#[trigger] v[j]).vm_window_id == id;
    assert(v[j].vm_window_id == v[i].vm_window_id);
}

proof fn lemma_registry_update(v: Seq<ProxiedWindow>, i: int, w: ProxiedWindow)
    requires
        window_ids_unique(v),
        0 <= i < v.len(),
        w.vm_window_id == v[i].vm_window_id,
    ensures
        window_ids_unique(v.update(i, w)),
        registry_map(v.update(i, w)) == registry_map(v).insert(w.vm_window_id, proxied_state(w)),
{
    let u = v.update(i, w);
    assert forall|a: int, b: int|
        0 <= a < u.len() && 0 <= b < u.len() && a != b implies (#[trigger] u[a]).vm_window_id
        != (#[trigger] u[b]).vm_window_id by {
        assert(u[a].vm_window_id == v[a].vm_window_id);
        assert(u[b].vm_window_id == v[b].vm_window_id);
    }
    let m = registry_map(v).insert(w.vm_window_id, proxied_state(w));
    assert forall|id: u32| #[trigger] registry_map(u).contains_key(id) == m.contains_key(id) by {
        if holds_id(u, id) {
            let k = choose|k: int| 0 <= k < u.len() && (#[trigger] u[k]).vm_window_id == id;
            assert(v[k].vm_window_id == id);
        }
        if holds_id(v, id) {
            let k = choose|k: int| 0 <= k < v.len() && (#[trigger] v[k]).vm_window_id == id;
            assert(u[k].vm_window_id == id);
        }
    }
    assert forall|id: u32| #[trigger] registry_map(u).contains_key(id) implies registry_map(u)[id]
        == m[id] by {
        let k = choose|k: int| 0 <= k < u.len() && (#[trigger] u[k]).vm_window_id == id;
        lemma_registry_at(u, k);
        if k != i {
            lemma_registry_at(v, k);
        }
    }
    assert(registry_map(u) =~= m);
}

proof fn lemma_registry_push(v: Seq<ProxiedWindow>, w: ProxiedWindow)
    requires
        window_ids_unique(v),
        !holds_id(v, w.vm_window_id),
    ensures
        window_ids_unique(v.push(w)),
        registry_map(v.push(w)) == registry_map(v).insert(w.vm_window_id, proxied_state(w)),
{
    let u = v.push(w);
    assert forall|a: int, b: int|
        0 <= a < u.len() && 0 <= b < u.len() && a != b implies (#[trigger] u[a]).vm_window_id
        != (#[trigger] u[b]).vm_window_id by {
        if a < v.len() && b < v.len() {
            assert(u[a] == v[a] && u[b] == v[b]);
        } else if a < v.len() {
            assert(u[a] == v[a]);
        } else if b < v.len() {
            assert(u[b] == v[b]);
        }
    }
    let m = registry_map(v).insert(w.vm_window_id, proxied_state(w));
    assert forall|id: u32| #[trigger] registry_map(u).contains_key(id) == m.contains_key(id) by {
        if holds_id(u, id) {
            let k = choose|k: int| 0 <= k < u.len() && (#[trigger] u[k]).vm_window_id == id;
            if k < v.len() {
                assert(v[k].vm_window_id == id);
            }
        }
        if holds_id(v, id) {
            let k = choose|k: int| 0 <= k < v.len() && (#[trigger] v[k]).vm_window_id == id;
            assert(u[k].vm_window_id == id);
        }
        if id == w.vm_window_id {
            assert(u[v.len() as int].vm_window_id == id);
        }
    }
    assert forall|id: u32| #[trigger] registry_map(u).contains_key(id) implies registry_map(u)[id]
        == m[id] by {
        let k = choose|k: int| 0 <= k < u.len() && (#[trigger] u[k]).vm_window_id == id;
        lemma_registry_at(u, k);
        if k < v.len() {
            assert(u[k] == v[k]);
            lemma_registry_at(v, k);
        }
    }
    assert(registry_map(u) =~= m);
}

proof fn lemma_registry_remove(v: Seq<ProxiedWindow>, i: int)
    requires
        window_ids_unique(v),
        0 <= i < v.len(),
    ensures
        window_ids_unique(v.remove(i)),
        registry_map(v.remove(i)) == registry_map(v).remove(v[i].vm_window_id),
{
    let u = v.remove(i);
    let gone = v[i].vm_window_id;
    assert forall|a: int| 0 <= a < u.len() implies #[trigger] u[a] == v[if a < i {
        a
    } else {
        a + 1
    }] by {}
    assert forall|a: int, b: int|
        0 <= a < u.len() && 0 <= b < u.len() && a != b implies (#[trigger] u[a]).vm_window_id
        != (#[trigger] u[b]).vm_window_id by {
        let a2 = if a < i {
            a
        } else {
            a + 1
        };
        let b2 = if b < i {
            b
        } else {
            b + 1
        };
        assert(u[a] == v[a2] && u[b] == v[b2]);
    }
    let m = registry_map(v).remove(gone);
    assert forall|id: u32| #[trigger] registry_map(u).contains_key(id) == m.contains_key(id) by {
        if holds_id(u, id) {
            let k = choose|k: int| 0 <= k < u.len() && (#[trigger] u[k]).vm_window_id == id;
            let k2 = if k < i {
                k
            } else {
                k + 1
            };
            assert(u[k] == v[k2]);
            assert(v[k2].vm_window_id == id);
        }
        if holds_id(v, id) && id != gone {
            let k = choose|k: int| 0 <= k < v.len() && (#[trigger] v[k]).vm_window_id == id;
            let k2 = if k < i {
                k
            } else {
                k - 1
            };
            assert(u[k2] == v[k]);
            assert(u[k2].vm_window_id == id);
        }
    }
    assert forall|id: u32| #[trigger] registry_map(u).contains_key(id) implies registry_map(u)[id]
        == m[id] by {
        let k = choose|k: int| 0 <= k < u.len() && (#[trigger] u[k]).vm_window_id == id;
        let k2 = if k < i {
            k
        } else {
            k + 1
        };
        lemma_registry_at(u, k);
        assert(u[k] == v[k2]);
        lemma_registry_at(v, k2);
    }
    assert(registry_map(u) =~= m);
}

/// The host's registry of mirrored guest windows.
pub struct WindowProxy {
    windows: Vec<ProxiedWindow>,
}

impl View for WindowProxy {
    type V = Map<u32, ProxiedState>;

    closed spec fn view(&self) -> Map<u32, ProxiedState> {
        registry_map(self.windows@)
    }
}

impl WindowProxy {
    /// The registry holds each id once.
    pub closed spec fn wf(&self) -> bool {
        window_ids_unique(self.windows@)
    }

    /// A registry with no windows.
    pub fn new() -> (r: Self)
        ensures
            r.wf(),
            r@ == Map::<u32, ProxiedState>::empty(),
    {
        let r = WindowProxy { windows: Vec::new() };
        assert(r@ =~= Map::<u32, ProxiedState>::empty());
        r
    }

    fn position(&self, id: u32) -> (r: Option<usize>)
        requires
            self.wf(),
        ensures
            r is Some <==> self@.contains_key(id),
            r is Some ==> r->0 < self.windows@.len() && self.windows@[r->0 as int].vm_window_id
                == id,
    {
        let mut i: usize = 0;
        while i < self.windows.len()
            invariant
                i <= self.windows@.len(),
                forall|k: int| 0 <= k < i ==> self.windows@[k].vm_window_id != id,
            decreases self.windows.len() - i,
        {
            if self.windows[i].vm_window_id == id {
                assert(holds_id(self.windows@, id));
                return Some(i);
            }
            i = i + 1;
        }
        assert(!holds_id(self.windows@, id));
        None
    }

    /// The mirrored window with the given id, if any.
    pub fn get(&self, id: u32) -> (r: Option<&ProxiedWindow>)
        requires
            self.wf(),
        ensures
            r is Some <==> self@.contains_key(id),
            r is Some ==> proxied_state(*r->0) == self@[id] && r->0.vm_window_id == id,
    {
        match self.position(id) {
            Some(i) => {
                proof {
                    lemma_registry_at(self.windows@, i as int);
                }
                Some(&self.windows[i])
            },
            None => None,
        }
    }

    /// How many windows are mirrored.
    pub fn len(&self) -> (r: usize)
        requires
            self.wf(),
        ensures
            r == self@.len(),
    {
        proof {
            lemma_registry_len(self.windows@);
        }
        self.windows.len()
    }

    fn set_at(&mut self, i: usize, w: ProxiedWindow)
        requires
            old(self).wf(),
            i < old(self).windows@.len(),
            w.vm_window_id == old(self).windows@[i as int].vm_window_id,
        ensures
            final(self).wf(),
            final(self)@ == old(self)@.insert(w.vm_window_id, proxied_state(w)),
    {
        proof {
            lemma_registry_update(self.windows@, i as int, w);
        }
        self.windows.set(i, w);
    }

    /// Applies one inbound window message and returns the native changes it asks for.
    pub fn handle_vm_message(&mut self, msg: WindowMessage) -> (requests: Vec<SurfaceRequest>)
        requires
            old(self).wf(),
        ensures
            final(self).wf(),
            final(self)@ == apply_event(old(self)@, msg@),
            request_views(requests@) == surface_requests(old(self)@, msg@),
    {
        let ghost m0 = self@;
        let mut requests: Vec<SurfaceRequest> = Vec::new();
        match msg {
            WindowMessage::WindowCreated { id, title, width, height, x, y, app_name } => {
                let create = SurfaceRequest::Create { id, title: title.clone(), width, height };
                let w = ProxiedWindow {
                    vm_window_id: id,
                    title,
                    width,
                    height,
                    x,
                    y,
                    app_name,
                    focused: false,
                };
                match self.position(id) {
                    Some(i) => {
                        requests.push(SurfaceRequest::Destroy { id });
                        self.set_at(i, w);
                    },
                    None => {
                        proof {
                            lemma_registry_push(self.windows@, w);
                        }
                        self.windows.push(w);
                    },
                }
                requests.push(create);
            },
            WindowMessage::WindowDestroyed { id } => {
                match self.position(id) {
                    Some(i) => {
                        proof {
                            lemma_registry_remove(self.windows@, i as int);
                        }
                        self.windows.remove(i);
                        requests.push(SurfaceRequest::Destroy { id });
                    },
                    None => {
                        assert(self@ =~= m0.remove(id));
                    },
                }
            },
            WindowMessage::WindowMoved { id, x, y } => {
                if let Some(i) = self.position(id) {
                    proof {
                        lemma_registry_at(self.windows@, i as int);
                    }
                    let old_w = &self.windows[i];
                    let w = ProxiedWindow { x, y, title: old_w.title.clone(), app_name: old_w.app_name.clone(), ..*old_w };
                    self.set_at(i, w);
                }
            },
            WindowMessage::WindowResized { id, width, height } => {
                if let Some(i) = self.position(id) {
                    proof {
                        lemma_registry_at(self.windows@, i as int);
                    }
                    let old_w = &self.windows[i];
                    let w = ProxiedWindow { width, height, title: old_w.title.clone(), app_name: old_w.app_name.clone(), ..*old_w };
                    self.set_at(i, w);
                    requests.push(SurfaceRequest::Resize { id, width, height });
                }
            },
            WindowMessage::WindowTitleChanged { id, title } => {
                if let Some(i) = self.position(id) {
                    proof {
                        lemma_registry_at(self.windows@, i as int);
                    }
                    let old_w = &self.windows[i];
                    let w = ProxiedWindow { title: title.clone(), app_name: old_w.app_name.clone(), ..*old_w };
                    self.set_at(i, w);
                    requests.push(SurfaceRequest::Retitle { id, title });
                }
            },
            WindowMessage::WindowFocusChanged { id, focused } => {
                if let Some(i) = self.position(id) {
                    proof {
                        lemma_registry_at(self.windows@, i as int);
                    }
                    let old_w = &self.windows[i];
                    let w = ProxiedWindow { focused, title: old_w.title.clone(), app_name: old_w.app_name.clone(), ..*old_w };
                    self.set_at(i, w);
                }
            },
            WindowMessage::ApplicationStarted { .. } => {},
            WindowMessage::ApplicationStopped { .. } => {},
        }
        assert(request_views(requests@) =~= surface_requests(m0, msg@));
        requests
    }
}

proof fn lemma_registry_len(v: Seq<ProxiedWindow>)
    requires
        window_ids_unique(v),
    ensures
        registry_map(v).len() == v.len(),
    decreases v.len(),
{
    if v.len() == 0 {
        assert(registry_map(v) =~= Map::<u32, ProxiedState>::empty());
    } else {
        let i = v.len() - 1;
        lemma_registry_remove(v, i);
        lemma_registry_len(v.remove(i));
        lemma_registry_at(v, i);
        assert(registry_map(v).dom() == registry_map(v.remove(i)).dom().insert(v[i].vm_window_id));
        lemma_registry_finite(v.remove(i));
    }
}

proof fn lemma_registry_finite(v: Seq<ProxiedWindow>)
    ensures
        registry_map(v).dom().finite(),
    decreases v.len(),
{
    let idv = v.map_values(|w: ProxiedWindow| w.vm_window_id);
    let all = idv.to_set();
    assert(registry_map(v).dom() =~= all) by {
        assert forall|id: u32| registry_map(v).dom().contains(id) implies all.contains(id) by {
            let k = choose|k: int| 0 <= k < v.len() && (#[trigger] v[k]).vm_window_id == id;
            assert(idv[k] == id);
        }
        assert forall|id: u32| all.contains(id) implies registry_map(v).dom().contains(id) by {
            let k = choose|k: int| 0 <= k < idv.len() && #[trigger] idv[k] == id;
            assert(v[k].vm_window_id == id);
        }
    }
    vstd::seq_lib::seq_to_set_is_finite(idv);
}

/// What the host does after a clipboard message.
#[derive(Debug, Clone, PartialEq, Eq)]
pub enum ClipboardAction {
    /// Nothing to do.
    Nothing,
    /// Write this text to the host clipboard.
    SetHost(String),
    /// Send this message back over the same connection.
    Reply(ClipboardMessage),
}

/// `ClipboardAction` with its text seen as characters.
pub enum ClipboardActionView {
    Nothing,
    SetHost(Seq<char>),
    Reply(ClipboardMessageView),
}

impl View for ClipboardAction {
    type V = ClipboardActionView;

    open spec fn view(&self) -> ClipboardActionView {
        match self {
            ClipboardAction::Nothing => ClipboardActionView::Nothing,
            ClipboardAction::SetHost(t) => ClipboardActionView::SetHost(t@),
            ClipboardAction::Reply(m) => ClipboardActionView::Reply(m@),
        }
    }
}

/// The shared clipboard value after a clipboard message: the last text set wins.
pub open spec fn clipboard_after(value: Seq<char>, msg: ClipboardMessageView) -> Seq<char> {
    match msg {
        ClipboardMessageView::SetClipboard(t) => t,
        _ => value,
    }
}

/// What a clipboard message asks of the host: a set is pushed to the host
/// clipboard, a get is answered with the current value, content is ignored.
pub open spec fn clipboard_action(value: Seq<char>, msg: ClipboardMessageView) -> ClipboardActionView {
    match msg {
        ClipboardMessageView::SetClipboard(t) => ClipboardActionView::SetHost(t),
        ClipboardMessageView::GetClipboard => ClipboardActionView::Reply(
            ClipboardMessageView::ClipboardContent(value),
        ),
        ClipboardMessageView::ClipboardContent(_) => ClipboardActionView::Nothing,
    }
}

/// The host's shared clipboard value. A change of the host clipboard is only
/// stored here: nothing pushes it to the guest, which learns of it by polling
/// with `GetClipboard`.
pub struct ClipboardProxy {
    host_clipboard: String,
}

impl View for ClipboardProxy {
    type V = Seq<char>;

    closed spec fn view(&self) -> Seq<char> {
        self.host_clipboard@
    }
}

impl ClipboardProxy {
    /// An empty clipboard.
    pub fn new() -> (r: Self)
        ensures
            r@ == Seq::<char>::empty(),
    {
        ClipboardProxy { host_clipboard: String::new() }
    }

    /// The current value.
    pub fn content(&self) -> (r: &String)
        ensures
            r@ == self@,
    {
        &self.host_clipboard
    }

    /// Applies a clipboard message from the guest and says what the host must do.
    pub fn handle_clipboard_message(&mut self, msg: ClipboardMessage) -> (action: ClipboardAction)
        ensures
            final(self)@ == clipboard_after(old(self)@, msg@),
            action@ == clipboard_action(old(self)@, msg@),
    {
        match msg {
            ClipboardMessage::SetClipboard(t) => {
                self.host_clipboard = t.clone();
                ClipboardAction::SetHost(t)
            },
            ClipboardMessage::GetClipboard => ClipboardAction::Reply(
                ClipboardMessage::ClipboardContent(self.host_clipboard.clone()),
            ),
            ClipboardMessage::ClipboardContent(_) => ClipboardAction::Nothing,
        }
    }

    /// Records what the host clipboard holds now; `true` when that differs from
    /// the stored value.
    pub fn host_clipboard_changed(&mut self, current: String) -> (changed: bool)
        ensures
            final(self)@ == current@,
            changed == (current@ != old(self)@),
    {
        if current != self.host_clipboard {
            self.host_clipboard = current;
            true
        } else {
            false
        }
    }
}

} // verus!

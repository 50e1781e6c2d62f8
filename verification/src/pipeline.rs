//! The commit pipeline and the surrounding shell state.
//!
//! One `ShellState` gathers everything a commit may touch: the surface store,
//! the space, popup bookkeeping, the cursor image, the drag icon, the
//! fullscreen registry and the layout session. `commit` reacts to one surface
//! commit; `ensure_initial_configure` is the per-role initial-configure state
//! machine. Everything the compositor toolkit must be told afterwards (which
//! configure to send, which window moved) comes back as an effect value.

use vstd::prelude::*;

use crate::geometry::{Point, Rect, COORD_LIMIT, LOC_LIMIT};
use crate::placement::PlacementSession;
use crate::space::{
    lemma_spec_zone_in, first_output_overlapping, first_output_with_layer,
    first_window_for_surface, spec_zone, LayerEntry, LayerKind, Output, Reservation, Space,
    Window,
};
use crate::surface::{
    is_descendant, init_tree_state, root_of, spec_root_of, wf_surfaces, ResizeState, Surface,
    SurfaceData,
};

verus! {

/// The two popup flavours: one needs an explicit configure before it may
/// render, the other (input-method popups) does not.
#[derive(Clone, Copy, Debug, PartialEq, Eq, Structural)]
pub enum PopupKind {
    Xdg,
    InputMethod,
}

/// A tracked popup.
#[derive(Clone, Copy, Debug)]
pub struct Popup {
    pub surface: usize,
    pub kind: PopupKind,
    pub configure_sent: bool,
}

/// What the pointer currently shows.
#[derive(Clone, Copy, Debug)]
pub enum CursorStatus {
    Hidden,
    NamedCursor,
    SurfaceCursor { surface: usize, hotspot: Point },
}

/// The drag-and-drop icon surface with its accumulated display offset.
#[derive(Clone, Copy, Debug)]
pub struct DndIcon {
    pub surface: usize,
    pub offset: Point,
}

/// Which initial configure a pass decided to send.
#[derive(Clone, Copy, Debug, PartialEq, Eq, Structural)]
pub enum ConfigureSent {
    ToplevelConfigure,
    PopupConfigure,
    LayerConfigure,
}

/// A window move the toolkit must mirror.
#[derive(Clone, Copy, Debug)]
pub struct MovedWindow {
    pub id: u64,
    pub location: Point,
}

/// What one commit asks of the toolkit.
#[derive(Clone, Copy, Debug)]
pub struct CommitEffects {
    pub moved: Option<MovedWindow>,
    pub configure: Option<ConfigureSent>,
}

/// Holder of the window currently fullscreened on one output. It keeps only
/// a handle; a dead handle is cleared the moment it is looked up.
#[derive(Clone, Copy, Debug)]
pub struct FullscreenSurface {
    pub window: Option<u64>,
}

impl FullscreenSurface {
    pub fn new() -> (r: FullscreenSurface)
        ensures
            r.window is None,
    {
        FullscreenSurface { window: None }
    }

    pub fn set(&mut self, window: u64)
        ensures
            final(self).window == Some(window),
    {
        self.window = Some(window);
    }

    /// The fullscreened window, if it is still alive in `space`; a dead
    /// handle is dropped so the next lookup starts clean.
    pub fn get(&mut self, space: &Space) -> (r: Option<u64>)
        ensures
            match old(self).window {
                Some(id) => {
                    if exists|i: int|
                        0 <= i < space.windows@.len() && (#[trigger] space.windows@[i]).id == id {
                        r == Some(id) && final(self).window == Some(id)
                    } else {
                        r is None && final(self).window is None
                    }
                },
                None => r is None && final(self).window is None,
            },
    {
        match self.window {
            Some(id) => {
                match space.window_index_by_id(id) {
                    Some(i) => {
                        proof {
                            assert(space.windows@[i as int].id == id);
                        }
                        Some(id)
                    },
                    None => {
                        self.window = None;
                        None
                    },
                }
            },
            None => None,
        }
    }

    pub fn clear(&mut self) -> (r: Option<u64>)
        ensures
            r == old(self).window,
            final(self).window is None,
    {
        let prev = self.window;
        self.window = None;
        prev
    }
}

/// One output's slot in the fullscreen registry.
#[derive(Clone, Copy, Debug)]
pub struct FullscreenEntry {
    pub output: u64,
    pub holder: FullscreenSurface,
}

pub open spec fn first_fullscreen_entry(es: Seq<FullscreenEntry>, output: u64, i: int) -> bool {
    &&& 0 <= i < es.len()
    &&& es[i].output == output
    &&& forall|j: int| 0 <= j < i ==> (#[trigger] es[j]).output != output
}

pub proof fn lemma_first_fullscreen_unique(es: Seq<FullscreenEntry>, output: u64, i: int)
    requires
        first_fullscreen_entry(es, output, i),
    ensures
        (choose|j: int| first_fullscreen_entry(es, output, j)) == i,
{
    let w = choose|j: int| first_fullscreen_entry(es, output, j);
    assert(first_fullscreen_entry(es, output, w));
    if w < i {
        assert(es[w].output != output);
        assert(false);
    } else if w > i {
        assert(es[i].output != output);
        assert(false);
    }
}

/// The fullscreen registry: one holder per output, keyed by output identity.
/// A lookup relation only — reads filter out dead handles, nothing owns the
/// window through it.
#[derive(Clone, Debug)]
pub struct FullscreenRegistry {
    pub entries: Vec<FullscreenEntry>,
}

impl FullscreenRegistry {
    pub fn new() -> (r: FullscreenRegistry)
        ensures
            r.entries@.len() == 0,
    {
        FullscreenRegistry { entries: Vec::new() }
    }

    /// First registry slot for `output`, if one exists yet.
    fn entry_index(&self, output: u64) -> (r: Option<usize>)
        ensures
            match r {
                Some(i) => first_fullscreen_entry(self.entries@, output, i as int),
                None => forall|j: int|
                    0 <= j < self.entries@.len() ==> (#[trigger] self.entries@[j]).output
                        != output,
            },
    {
        let n = self.entries.len();
        let mut i: usize = 0;
        while i < n
            invariant
                n == self.entries.len(),
                i <= n,
                forall|j: int| 0 <= j < i ==> (#[trigger] self.entries@[j]).output != output,
            decreases n - i,
        {
            if self.entries[i].output == output {
                return Some(i);
            }
            i += 1;
        }
        None
    }

    /// Records `window` as the one fullscreened on `output`.
    pub fn set(&mut self, output: u64, window: u64)
        ensures
            if exists|i: int| first_fullscreen_entry(old(self).entries@, output, i) {
                {
                    let i = choose|i: int| first_fullscreen_entry(old(self).entries@, output, i);
                    final(self).entries@ == old(self).entries@.update(
                        i,
                        FullscreenEntry {
                            output,
                            holder: FullscreenSurface { window: Some(window) },
                        },
                    )
                }
            } else {
                final(self).entries@ == old(self).entries@.push(
                    FullscreenEntry { output, holder: FullscreenSurface { window: Some(window) } },
                )
            },
    {
        match self.entry_index(output) {
            Some(i) => {
                proof {
                    lemma_first_fullscreen_unique(self.entries@, output, i as int);
                }
                self.entries.set(
                    i,
                    FullscreenEntry { output, holder: FullscreenSurface { window: Some(window) } },
                );
            },
            None => {
                self.entries.push(
                    FullscreenEntry { output, holder: FullscreenSurface { window: Some(window) } },
                );
            },
        }
    }

    /// The window fullscreened on `output`, if it is still alive in `space`;
    /// a dead handle is dropped from the slot.
    pub fn get(&mut self, output: u64, space: &Space) -> (r: Option<u64>)
        ensures
            if exists|i: int| first_fullscreen_entry(old(self).entries@, output, i) {
                {
                    let i = choose|i: int| first_fullscreen_entry(old(self).entries@, output, i);
                    match old(self).entries@[i].holder.window {
                        Some(id) => {
                            if exists|j: int|
                                0 <= j < space.windows@.len() && (#[trigger] space.windows@[j]).id
                                    == id {
                                r == Some(id) && final(self).entries@ == old(self).entries@
                            } else {
                                r is None && final(self).entries@ == old(self).entries@.update(
                                    i,
                                    FullscreenEntry {
                                        output,
                                        holder: FullscreenSurface { window: None },
                                    },
                                )
                            }
                        },
                        None => r is None && final(self).entries@ == old(self).entries@,
                    }
                }
            } else {
                r is None && final(self).entries@ == old(self).entries@
            },
    {
        match self.entry_index(output) {
            Some(i) => {
                proof {
                    lemma_first_fullscreen_unique(self.entries@, output, i as int);
                }
                let mut holder = self.entries[i].holder;
                let r = holder.get(space);
                self.entries.set(i, FullscreenEntry { output, holder });
                proof {
                    if r is None && old(self).entries@[i as int].holder.window is Some {
                        assert(self.entries@ == old(self).entries@.update(
                            i as int,
                            FullscreenEntry { output, holder: FullscreenSurface { window: None } },
                        ));
                    } else {
                        assert(self.entries@ =~= old(self).entries@);
                    }
                }
                r
            },
            None => None,
        }
    }

    /// Empties `output`'s slot, handing back whatever handle it held.
    pub fn clear(&mut self, output: u64) -> (r: Option<u64>)
        ensures
            if exists|i: int| first_fullscreen_entry(old(self).entries@, output, i) {
                {
                    let i = choose|i: int| first_fullscreen_entry(old(self).entries@, output, i);
                    r == old(self).entries@[i].holder.window && final(self).entries@ == old(
                        self,
                    ).entries@.update(
                        i,
                        FullscreenEntry { output, holder: FullscreenSurface { window: None } },
                    )
                }
            } else {
                r is None && final(self).entries@ == old(self).entries@
            },
    {
        match self.entry_index(output) {
            Some(i) => {
                proof {
                    lemma_first_fullscreen_unique(self.entries@, output, i as int);
                }
                let prev = self.entries[i].holder.window;
                self.entries.set(
                    i,
                    FullscreenEntry { output, holder: FullscreenSurface { window: None } },
                );
                prev
            },
            None => None,
        }
    }
}

/// The pending buffer of a surface as the pre-commit hook sees it.
#[derive(Clone, Copy, Debug)]
pub struct PendingBuffer {
    /// A shareable hardware buffer was attached.
    pub is_shared_buffer: bool,
    /// The buffer carries an explicit-synchronization acquire point.
    pub has_acquire_point: bool,
}

/// Outcome of trying to set up one readiness path: whether a blocker could be
/// derived, and whether its readiness source went into the run loop.
#[derive(Clone, Copy, Debug)]
pub struct RegistrationAttempt {
    pub blocker_ready: bool,
    pub source_registered: bool,
}

/// What the pre-commit hook decides for a commit.
#[derive(Clone, Copy, Debug, PartialEq, Eq, Structural)]
pub enum BlockerDecision {
    /// Hold the commit behind the explicit-sync acquire point.
    AttachAcquireBlocker,
    /// Hold the commit behind generic buffer readiness.
    AttachReadableBlocker,
    /// No readiness path worked out: the commit proceeds at once.
    ProceedUnblocked,
}

/// Decides whether a new surface's commit is parked behind a readiness event.
/// The explicit-sync path is preferred; the generic readable wait is the
/// fallback; failing both, the commit proceeds unblocked (best effort).
pub fn decide_commit_blocker(
    buffer: PendingBuffer,
    has_client: bool,
    acquire: RegistrationAttempt,
    readable: RegistrationAttempt,
) -> (r: BlockerDecision)
    requires
        buffer.is_shared_buffer && buffer.has_acquire_point && acquire.blocker_ready
            ==> has_client,
    ensures
        r == (if buffer.is_shared_buffer && buffer.has_acquire_point && acquire.blocker_ready
            && acquire.source_registered {
            BlockerDecision::AttachAcquireBlocker
        } else if buffer.is_shared_buffer && readable.blocker_ready && has_client
            && readable.source_registered {
            BlockerDecision::AttachReadableBlocker
        } else {
            BlockerDecision::ProceedUnblocked
        }),
{
    if buffer.is_shared_buffer {
        if buffer.has_acquire_point && acquire.blocker_ready && acquire.source_registered {
            return BlockerDecision::AttachAcquireBlocker;
        }
        if readable.blocker_ready && has_client && readable.source_registered {
            return BlockerDecision::AttachReadableBlocker;
        }
    }
    BlockerDecision::ProceedUnblocked
}

/// First-match predicate over the popup registry.
pub open spec fn first_popup_for(ps: Seq<Popup>, s: int, i: int) -> bool {
    &&& 0 <= i < ps.len()
    &&& ps[i].surface == s
    &&& forall|j: int| 0 <= j < i ==> #[trigger] ps[j].surface != s
}

pub proof fn lemma_first_popup_unique(ps: Seq<Popup>, s: int, i: int)
    requires
        first_popup_for(ps, s, i),
    ensures
        (choose|j: int| first_popup_for(ps, s, j)) == i,
{
    let w = choose|j: int| first_popup_for(ps, s, j);
    assert(first_popup_for(ps, s, w));
    if w < i {
        assert(ps[w].surface != s);
        assert(false);
    } else if w > i {
        assert(ps[i].surface != s);
        assert(false);
    }
}

/// The whole shell state one commit may touch.
#[derive(Clone, Debug)]
pub struct ShellState {
    pub surfaces: Vec<Surface>,
    pub space: Space,
    pub popups: Vec<Popup>,
    pub cursor: CursorStatus,
    pub dnd_icon: Option<DndIcon>,
    pub fullscreen: FullscreenRegistry,
    pub placement: PlacementSession,
}

impl ShellState {
    pub open spec fn wf(self) -> bool {
        &&& wf_surfaces(self.surfaces@)
        &&& self.space.wf(self.surfaces@.len() as int)
        &&& forall|i: int|
            0 <= i < self.popups@.len() ==> (#[trigger] self.popups@[i]).surface
                < self.surfaces@.len()
        &&& match self.cursor {
            CursorStatus::SurfaceCursor { surface, hotspot } => surface < self.surfaces@.len()
                && hotspot.wf_loc(),
            _ => true,
        }
        &&& match self.dnd_icon {
            Some(icon) => icon.surface < self.surfaces@.len() && icon.offset.wf_loc(),
            None => true,
        }
        &&& self.placement.wf()
    }

    /// An empty shell: no surfaces, outputs, windows or popups.
    pub fn new() -> (r: ShellState)
        ensures
            r.wf(),
            r.surfaces@.len() == 0,
            r.space.outputs@.len() == 0,
            r.space.windows@.len() == 0,
            r.popups@.len() == 0,
            r.cursor is Hidden,
            r.dnd_icon is None,
            r.fullscreen.entries@.len() == 0,
            r.placement.counter == 0,
            r.placement.memo@.len() == 0,
    {
        ShellState {
            surfaces: Vec::new(),
            space: Space::new(),
            popups: Vec::new(),
            cursor: CursorStatus::Hidden,
            dnd_icon: None,
            fullscreen: FullscreenRegistry::new(),
            placement: PlacementSession::new(),
        }
    }

    /// A new surface appears; returns its index.
    pub fn add_surface(&mut self, parent: Option<usize>) -> (r: usize)
        requires
            old(self).wf(),
            match parent {
                Some(p) => p < old(self).surfaces@.len(),
                None => true,
            },
        ensures
            final(self).wf(),
            r == old(self).surfaces@.len(),
            final(self).surfaces@ == old(self).surfaces@.push(Surface::spec_new(parent)),
            final(self).space == old(self).space,
            final(self).popups@ == old(self).popups@,
            final(self).cursor == old(self).cursor,
            final(self).dnd_icon == old(self).dnd_icon,
            final(self).fullscreen.entries@ == old(self).fullscreen.entries@,
            final(self).placement == old(self).placement,
    {
        let idx = self.surfaces.len();
        self.surfaces.push(Surface::new(parent));
        proof {
            assert forall|i: int| 0 <= i < self.surfaces@.len() implies #[trigger] self.surfaces@[i].wf(
                i,
            ) by {
                if i < old(self).surfaces@.len() {
                    assert(old(self).surfaces@[i].wf(i));
                }
            }
            assert(self.space.wf(self.surfaces@.len() as int)) by {
                crate::pipeline::lemma_space_wf_widen(
                    self.space,
                    old(self).surfaces@.len() as int,
                    self.surfaces@.len() as int,
                );
            }
        }
        idx
    }

    /// First window wrapping `surface`, as an identity the toolkit knows.
    pub fn window_for_surface(&self, surface: usize) -> (r: Option<u64>)
        ensures
            match r {
                Some(id) => exists|i: int|
                    first_window_for_surface(self.space.windows@, surface as int, i)
                        && (#[trigger] self.space.windows@[i]).id == id,
                None => forall|i: int|
                    0 <= i < self.space.windows@.len()
                        ==> (#[trigger] self.space.windows@[i]).surface != surface,
            },
    {
        match self.space.window_index_by_surface(surface) {
            Some(i) => Some(self.space.windows[i].id),
            None => None,
        }
    }
}

/// Space well-formedness only shrinks demands as the surface count grows.
pub proof fn lemma_space_wf_widen(space: Space, n1: int, n2: int)
    requires
        space.wf(n1),
        n1 <= n2,
    ensures
        space.wf(n2),
{
    assert forall|i: int| 0 <= i < space.outputs.len() implies #[trigger] space.outputs[i].wf(
        n2,
    ) by {
        assert(space.outputs[i].wf(n1));
        assert forall|j: int| 0 <= j < space.outputs[i].layers.len()
            implies #[trigger] space.outputs[i].layers[j].wf(n2) by {
            assert(space.outputs[i].layers[j].wf(n1));
        }
    }
    assert forall|i: int| 0 <= i < space.windows.len() implies #[trigger] space.windows[i].wf(
        n2,
    ) by {
        assert(space.windows[i].wf(n1));
    }
}

/// Maps a new layer surface onto the requested output, or the first output
/// when none (or an unknown one) was named. With no output at all the request
/// is dropped; reports whether the surface was mapped.
pub fn new_layer_surface(
    space: &mut Space,
    surface: usize,
    requested_output: Option<u64>,
    kind: LayerKind,
    namespace: String,
    exclusive: Option<Reservation>,
) -> (mapped: bool)
    requires
        match exclusive {
            Some(r) => 0 <= r.thickness <= COORD_LIMIT,
            None => true,
        },
    ensures
        mapped == (old(space).outputs@.len() > 0),
        !mapped ==> *final(space) == *old(space),
        mapped ==> {
            let t = spec_layer_target(old(space).outputs@, requested_output);
            &&& final(space).windows@ == old(space).windows@
            &&& final(space).outputs@.len() == old(space).outputs@.len()
            &&& forall|i: int|
                0 <= i < old(space).outputs@.len() && i != t
                    ==> #[trigger] final(space).outputs@[i] == old(space).outputs@[i]
            &&& final(space).outputs@[t].id == old(space).outputs@[t].id
            &&& final(space).outputs@[t].geometry == old(space).outputs@[t].geometry
            &&& final(space).outputs@[t].zone == old(space).outputs@[t].zone
            &&& final(space).outputs@[t].layers@ == old(space).outputs@[t].layers@.push(
                LayerEntry {
                    surface,
                    namespace,
                    kind,
                    exclusive,
                    configure_sent: false,
                },
            )
        },
{
    let n = space.outputs.len();
    if n == 0 {
        return false;
    }
    let mut target: usize = 0;
    match requested_output {
        Some(id) => {
            match output_index_by_id(space, id) {
                Some(i) => {
                    target = i;
                    proof {
                        lemma_first_output_id_unique(space.outputs@, id, i as int);
                    }
                },
                None => {},
            }
        },
        None => {},
    }
    let mut o = space.outputs.remove(target);
    o.layers.push(LayerEntry { surface, namespace, kind, exclusive, configure_sent: false });
    space.outputs.insert(target, o);
    true
}

/// The output a layer surface lands on: the requested output when it exists,
/// else the first one.
pub open spec fn spec_layer_target(os: Seq<Output>, requested: Option<u64>) -> int {
    match requested {
        Some(id) => if exists|i: int| first_output_with_id(os, id, i) {
            choose|i: int| first_output_with_id(os, id, i)
        } else {
            0
        },
        None => 0,
    }
}

pub open spec fn first_output_with_id(os: Seq<Output>, id: u64, i: int) -> bool {
    &&& 0 <= i < os.len()
    &&& os[i].id == id
    &&& forall|j: int| 0 <= j < i ==> #[trigger] os[j].id != id
}

pub proof fn lemma_first_output_id_unique(os: Seq<Output>, id: u64, i: int)
    requires
        first_output_with_id(os, id, i),
    ensures
        (choose|j: int| first_output_with_id(os, id, j)) == i,
{
    let w = choose|j: int| first_output_with_id(os, id, j);
    assert(first_output_with_id(os, id, w));
    if w < i {
        assert(os[w].id != id);
        assert(false);
    } else if w > i {
        assert(os[i].id != id);
        assert(false);
    }
}

/// First output with identity `id`.
pub fn output_index_by_id(space: &Space, id: u64) -> (r: Option<usize>)
    ensures
        match r {
            Some(i) => first_output_with_id(space.outputs@, id, i as int),
            None => forall|j: int|
                0 <= j < space.outputs@.len() ==> (#[trigger] space.outputs@[j]).id != id,
        },
{
    let n = space.outputs.len();
    let mut i: usize = 0;
    while i < n
        invariant
            n == space.outputs.len(),
            i <= n,
            forall|j: int| 0 <= j < i ==> (#[trigger] space.outputs@[j]).id != id,
        decreases n - i,
    {
        if space.outputs[i].id == id {
            return Some(i);
        }
        i += 1;
    }
    None
}

/// A layer surface was torn down by its client: drop it from the layer stack
/// of the output holding it (if any still does).
pub fn layer_destroyed(space: &mut Space, surface: usize)
    ensures
        final(space).windows@ == old(space).windows@,
        final(space).outputs@.len() == old(space).outputs@.len(),
        if exists|o: int, e: int| first_output_with_layer(old(space).outputs@, surface as int, o, e) {
            {
                let (o, e): (int, int) = choose|o: int, e: int|
                    first_output_with_layer(old(space).outputs@, surface as int, o, e);
                &&& forall|i: int|
                    0 <= i < old(space).outputs@.len() && i != o
                        ==> #[trigger] final(space).outputs@[i] == old(space).outputs@[i]
                &&& final(space).outputs@[o].id == old(space).outputs@[o].id
                &&& final(space).outputs@[o].geometry == old(space).outputs@[o].geometry
                &&& final(space).outputs@[o].zone == old(space).outputs@[o].zone
                &&& final(space).outputs@[o].layers@ == old(space).outputs@[o].layers@.remove(e)
            }
        } else {
            final(space).outputs@ == old(space).outputs@
        },
{
    match space.output_with_layer_for(surface) {
        Some((o, e)) => {
            proof {
                lemma_first_output_layer_unique(space.outputs@, surface as int, o as int, e as int);
            }
            let mut out = space.outputs.remove(o);
            out.layers.remove(e);
            space.outputs.insert(o, out);
        },
        None => {},
    }
}

pub proof fn lemma_first_output_layer_unique(os: Seq<Output>, s: int, o: int, e: int)
    requires
        first_output_with_layer(os, s, o, e),
    ensures
        (choose|o2: int, e2: int| first_output_with_layer(os, s, o2, e2)) == (o, e),
{
    let (o2, e2): (int, int) = choose|o2: int, e2: int| first_output_with_layer(os, s, o2, e2);
    assert(first_output_with_layer(os, s, o2, e2));
    if o2 < o {
        assert(os[o2].layers[e2].surface != s);
        assert(false);
    } else if o2 > o {
        assert(os[o].layers[e].surface != s);
        assert(false);
    } else {
        if e2 < e {
            assert(os[o].layers[e2].surface != s);
            assert(false);
        } else if e2 > e {
            assert(os[o].layers[e].surface != s);
            assert(false);
        }
    }
}

/// The output area a fullscreen request targets: the geometry of the named
/// output when it exists, else of the first output showing the window that
/// wraps `surface`.
pub fn fullscreen_output_geometry(
    space: &Space,
    surface: usize,
    requested_output: Option<u64>,
) -> (r: Option<Rect>)
    requires
        space.bounded(),
    ensures
        match requested_output {
            Some(id) => {
                if exists|i: int| first_output_with_id(space.outputs@, id, i) {
                    r == Some(
                        space.outputs@[choose|i: int|
                            first_output_with_id(space.outputs@, id, i)].geometry,
                    )
                } else {
                    r == spec_window_output_geometry(*space, surface as int)
                }
            },
            None => r == spec_window_output_geometry(*space, surface as int),
        },
{
    match requested_output {
        Some(id) => {
            match output_index_by_id(space, id) {
                Some(i) => {
                    proof {
                        lemma_first_output_id_unique(space.outputs@, id, i as int);
                    }
                    return Some(space.outputs[i].geometry);
                },
                None => {},
            }
        },
        None => {},
    }
    match space.window_index_by_surface(surface) {
        Some(w) => {
            proof {
                lemma_first_window_unique(space.windows@, surface as int, w as int);
            }
            match space.first_output_for_window(w) {
                Some(o) => {
                    proof {
                        lemma_first_window_unique(space.windows@, surface as int, w as int);
                        lemma_first_overlap_unique(
                            space.outputs@,
                            space.windows@[w as int].spec_global_bbox(),
                            o as int,
                        );
                    }
                    Some(space.outputs[o].geometry)
                },
                None => None,
            }
        },
        None => None,
    }
}

/// Geometry of the first output overlapping the window that wraps `surface`.
pub open spec fn spec_window_output_geometry(space: Space, s: int) -> Option<Rect> {
    if exists|i: int| first_window_for_surface(space.windows@, s, i) {
        let w = choose|i: int| first_window_for_surface(space.windows@, s, i);
        let b = space.windows@[w].spec_global_bbox();
        if exists|o: int| first_output_overlapping(space.outputs@, b, o) {
            Some(space.outputs@[choose|o: int| first_output_overlapping(space.outputs@, b, o)].geometry)
        } else {
            None
        }
    } else {
        None
    }
}

pub proof fn lemma_first_overlap_unique(os: Seq<Output>, b: Rect, o: int)
    requires
        first_output_overlapping(os, b, o),
    ensures
        (choose|j: int| first_output_overlapping(os, b, j)) == o,
{
    let w = choose|j: int| first_output_overlapping(os, b, j);
    assert(first_output_overlapping(os, b, w));
    if w < o {
        assert(!os[w].geometry.spec_overlaps(b));
        assert(false);
    } else if w > o {
        assert(!os[o].geometry.spec_overlaps(b));
        assert(false);
    }
}

pub proof fn lemma_first_window_unique(ws: Seq<Window>, s: int, i: int)
    requires
        first_window_for_surface(ws, s, i),
    ensures
        (choose|j: int| first_window_for_surface(ws, s, j)) == i,
{
    let w = choose|j: int| first_window_for_surface(ws, s, j);
    assert(first_window_for_surface(ws, s, w));
    if w < i {
        assert(ws[w].surface != s);
        assert(false);
    } else if w > i {
        assert(ws[i].surface != s);
        assert(false);
    }
}


/// Auxiliary state of surface `i` after a tree-wide initialization pass
/// rooted at `root`.
pub open spec fn init_data(ss: Seq<Surface>, i: int, root: int) -> Option<SurfaceData> {
    if is_descendant(ss, i, root) && ss[i].data is None {
        Some(SurfaceData::spec_default())
    } else {
        ss[i].data
    }
}

pub open spec fn init_surface(ss: Seq<Surface>, i: int, root: int) -> Surface {
    Surface { data: init_data(ss, i, root), ..ss[i] }
}

/// The cached geometry surface `s` keeps across the configure pass.
pub open spec fn spec_geo(ss: Seq<Surface>, s: int) -> Option<Rect> {
    match ss[s].data {
        Some(d) => d.geometry,
        None => None,
    }
}

/// Everything one ensure-configure pass over surface `s` does: the subtree
/// gets auxiliary state; then exactly one role branch fires — window, popup,
/// layer surface, or none — checked in that order. A configure is reported
/// if and only if the role's flag was still unset; the flag is set with it.
/// A window surface additionally settles any pending resize, whatever the
/// committed size was.
pub open spec fn configure_rel(
    pre: ShellState,
    post: ShellState,
    s: int,
    eff: Option<ConfigureSent>,
) -> bool {
    let ss = pre.surfaces@;
    &&& post.surfaces@.len() == ss.len()
    &&& post.cursor == pre.cursor
    &&& post.dnd_icon == pre.dnd_icon
    &&& post.fullscreen.entries@ == pre.fullscreen.entries@
    &&& post.placement.counter == pre.placement.counter
    &&& post.placement.memo@ == pre.placement.memo@
    &&& post.space.windows@ == pre.space.windows@
    &&& if exists|i: int| first_window_for_surface(pre.space.windows@, s, i) {
        &&& forall|i: int|
            0 <= i < ss.len() && i != s ==> #[trigger] post.surfaces@[i] == init_surface(ss, i, s)
        &&& post.surfaces@[s] == (Surface {
            data: Some(
                SurfaceData { geometry: spec_geo(ss, s), resize_state: ResizeState::NotResizing },
            ),
            toplevel_configure_sent: true,
            ..ss[s]
        })
        &&& eff == (if ss[s].toplevel_configure_sent {
            Option::<ConfigureSent>::None
        } else {
            Some(ConfigureSent::ToplevelConfigure)
        })
        &&& post.space.outputs@ == pre.space.outputs@
        &&& post.popups@ == pre.popups@
    } else if exists|i: int| first_popup_for(pre.popups@, s, i) {
        let p = choose|i: int| first_popup_for(pre.popups@, s, i);
        &&& forall|i: int|
            0 <= i < ss.len() ==> #[trigger] post.surfaces@[i] == init_surface(ss, i, s)
        &&& post.space.outputs@ == pre.space.outputs@
        &&& match pre.popups@[p].kind {
            PopupKind::Xdg => {
                &&& post.popups@ == pre.popups@.update(
                    p,
                    Popup { configure_sent: true, ..pre.popups@[p] },
                )
                &&& eff == (if pre.popups@[p].configure_sent {
                    Option::<ConfigureSent>::None
                } else {
                    Some(ConfigureSent::PopupConfigure)
                })
            },
            PopupKind::InputMethod => post.popups@ == pre.popups@ && eff is None,
        }
    } else if exists|o: int, e: int| first_output_with_layer(pre.space.outputs@, s, o, e) {
        let (o, e): (int, int) = choose|o: int, e: int|
            first_output_with_layer(pre.space.outputs@, s, o, e);
        &&& forall|i: int|
            0 <= i < ss.len() ==> #[trigger] post.surfaces@[i] == init_surface(ss, i, s)
        &&& post.popups@ == pre.popups@
        &&& post.space.outputs@.len() == pre.space.outputs@.len()
        &&& forall|i: int|
            0 <= i < pre.space.outputs@.len() && i != o
                ==> #[trigger] post.space.outputs@[i] == pre.space.outputs@[i]
        &&& post.space.outputs@[o].id == pre.space.outputs@[o].id
        &&& post.space.outputs@[o].geometry == pre.space.outputs@[o].geometry
        &&& post.space.outputs@[o].zone == spec_zone(
            pre.space.outputs@[o].geometry.size,
            pre.space.outputs@[o].layers@,
        )
        &&& post.space.outputs@[o].layers@ == pre.space.outputs@[o].layers@.update(
            e,
            LayerEntry { configure_sent: true, ..pre.space.outputs@[o].layers@[e] },
        )
        &&& eff == (if pre.space.outputs@[o].layers@[e].configure_sent {
            Option::<ConfigureSent>::None
        } else {
            Some(ConfigureSent::LayerConfigure)
        })
    } else {
        &&& forall|i: int|
            0 <= i < ss.len() ==> #[trigger] post.surfaces@[i] == init_surface(ss, i, s)
        &&& post.space.outputs@ == pre.space.outputs@
        &&& post.popups@ == pre.popups@
        &&& eff is None
    }
}

/// First popup tracking `s`.
pub fn popup_index_for(popups: &Vec<Popup>, s: usize) -> (r: Option<usize>)
    ensures
        match r {
            Some(i) => first_popup_for(popups@, s as int, i as int),
            None => forall|j: int|
                0 <= j < popups@.len() ==> (#[trigger] popups@[j]).surface != s,
        },
{
    let n = popups.len();
    let mut i: usize = 0;
    while i < n
        invariant
            n == popups.len(),
            i <= n,
            forall|j: int| 0 <= j < i ==> (#[trigger] popups@[j]).surface != s,
        decreases n - i,
    {
        if popups[i].surface == s {
            return Some(i);
        }
        i += 1;
    }
    None
}

/// Guarantees the client behind `s` received its initial configure before the
/// first meaningful render: initializes the subtree's auxiliary state, then
/// fires the one role branch (window, then popup, then layer surface) that
/// matches. Reports the configure that must now be sent, if any.
pub fn ensure_initial_configure(state: &mut ShellState, s: usize) -> (eff: Option<ConfigureSent>)
    requires
        old(state).wf(),
        s < old(state).surfaces@.len(),
    ensures
        final(state).wf(),
        final(state).surfaces@.len() == old(state).surfaces@.len(),
        configure_rel(*old(state), *final(state), s as int, eff),
{
    let ghost pre = *old(state);
    init_tree_state(&mut state.surfaces, s);
    proof {
        assert(state.space.wf(state.surfaces@.len() as int));
    }
    match state.space.window_index_by_surface(s) {
        Some(j) => {
            proof {
                assert(first_window_for_surface(state.space.windows@, s as int, j as int));
            }
            let sur = state.surfaces[s];
            let was = sur.toplevel_configure_sent;
            let geo = match sur.data {
                Some(sd) => sd.geometry,
                None => None,
            };
            state.surfaces.set(
                s,
                Surface {
                    data: Some(
                        SurfaceData { geometry: geo, resize_state: ResizeState::NotResizing },
                    ),
                    toplevel_configure_sent: true,
                    ..sur
                },
            );
            proof {
                assert forall|i: int| 0 <= i < state.surfaces@.len()
                    implies #[trigger] state.surfaces@[i].wf(i) by {
                    assert(pre.surfaces@[i].wf(i));
                    assert(state.surfaces@[i].parent == pre.surfaces@[i].parent);
                    assert(state.surfaces@[i].buffer_delta == pre.surfaces@[i].buffer_delta);
                }
                assert(state.surfaces@[s as int] == (Surface {
                    data: Some(
                        SurfaceData {
                            geometry: spec_geo(pre.surfaces@, s as int),
                            resize_state: ResizeState::NotResizing,
                        },
                    ),
                    toplevel_configure_sent: true,
                    ..pre.surfaces@[s as int]
                }));
            }
            if was {
                None
            } else {
                Some(ConfigureSent::ToplevelConfigure)
            }
        },
        None => {
            match popup_index_for(&state.popups, s) {
                Some(p) => {
                    proof {
                        lemma_first_popup_unique(state.popups@, s as int, p as int);
                    }
                    match state.popups[p].kind {
                        PopupKind::InputMethod => None,
                        PopupKind::Xdg => {
                            let was = state.popups[p].configure_sent;
                            let updated = Popup { configure_sent: true, ..state.popups[p] };
                            state.popups.set(p, updated);
                            if was {
                                None
                            } else {
                                Some(ConfigureSent::PopupConfigure)
                            }
                        },
                    }
                },
                None => {
                    match state.space.output_with_layer_for(s) {
                        Some((o, e)) => {
                            proof {
                                lemma_first_output_layer_unique(
                                    state.space.outputs@,
                                    s as int,
                                    o as int,
                                    e as int,
                                );
                                assert(state.space.outputs@[o as int].wf(
                                    state.surfaces@.len() as int,
                                ));
                            }
                            let mut out = state.space.outputs.remove(o);
                            out.arrange();
                            let ent = out.layers.remove(e);
                            let was = ent.configure_sent;
                            let ent2 = LayerEntry { configure_sent: true, ..ent };
                            out.layers.insert(e, ent2);
                            state.space.outputs.insert(o, out);
                            proof {
                                lemma_spec_zone_in(
                                    pre.space.outputs@[o as int].geometry.size,
                                    pre.space.outputs@[o as int].layers@,
                                );
                                assert(state.space.outputs@[o as int].layers@ =~= pre.space.outputs@[o as int].layers@.update(
                                    e as int,
                                    LayerEntry {
                                        configure_sent: true,
                                        ..pre.space.outputs@[o as int].layers@[e as int]
                                    },
                                ));
                                assert forall|i: int| 0 <= i < state.space.outputs@.len()
                                    implies #[trigger] state.space.outputs@[i].wf(
                                    state.surfaces@.len() as int,
                                ) by {
                                    assert(pre.space.outputs@[i].wf(pre.surfaces@.len() as int));
                                    if i == o as int {
                                        assert forall|k: int|
                                            0 <= k < state.space.outputs@[i].layers@.len()
                                            implies #[trigger] state.space.outputs@[i].layers@[k].wf(
                                            state.surfaces@.len() as int,
                                        ) by {
                                            assert(pre.space.outputs@[i].layers@[k].wf(
                                                pre.surfaces@.len() as int,
                                            ));
                                        }
                                    }
                                }
                            }
                            if was {
                                None
                            } else {
                                Some(ConfigureSent::LayerConfigure)
                            }
                        },
                        None => None,
                    }
                },
            }
        },
    }
}


/// The commit repositions the owning window when the committed surface is a
/// tree root (not a synchronized subsurface) with a pending buffer delta.
pub open spec fn window_move_applies(state: ShellState, s: int) -> bool {
    &&& !state.surfaces@[s].sync_subsurface
    &&& spec_root_of(state.surfaces@, s) == s
    &&& exists|i: int| first_window_for_surface(state.space.windows@, s, i)
}

/// The buffer delta still pending once the window step had its chance to
/// consume it.
pub open spec fn delta_after_window(state: ShellState, s: int) -> Option<Point> {
    if window_move_applies(state, s) {
        None
    } else {
        state.surfaces@[s].buffer_delta
    }
}

pub open spec fn cursor_matches(state: ShellState, s: int) -> bool {
    match state.cursor {
        CursorStatus::SurfaceCursor { surface, .. } => surface == s,
        _ => false,
    }
}

pub open spec fn delta_after_cursor(state: ShellState, s: int) -> Option<Point> {
    if cursor_matches(state, s) {
        None
    } else {
        delta_after_window(state, s)
    }
}

pub open spec fn dnd_matches(state: ShellState, s: int) -> bool {
    match state.dnd_icon {
        Some(icon) => icon.surface == s,
        None => false,
    }
}

/// The translations this commit performs stay in coordinate range; the
/// machine-limit side of the contract, nothing more.
pub open spec fn commit_fits(state: ShellState, s: int) -> bool {
    &&& (window_move_applies(state, s) && state.surfaces@[s].buffer_delta is Some) ==> {
        let d = state.surfaces@[s].buffer_delta->0;
        let j = choose|i: int| first_window_for_surface(state.space.windows@, s, i);
        let loc = state.space.windows@[j].location;
        &&& -LOC_LIMIT <= loc.x + d.x <= LOC_LIMIT
        &&& -LOC_LIMIT <= loc.y + d.y <= LOC_LIMIT
    }
    &&& (cursor_matches(state, s) && delta_after_window(state, s) is Some) ==> {
        let d = delta_after_window(state, s)->0;
        match state.cursor {
            CursorStatus::SurfaceCursor { hotspot, .. } => {
                &&& -LOC_LIMIT <= hotspot.x - d.x <= LOC_LIMIT
                &&& -LOC_LIMIT <= hotspot.y - d.y <= LOC_LIMIT
            },
            _ => true,
        }
    }
    &&& (dnd_matches(state, s) && delta_after_cursor(state, s) is Some) ==> {
        let d = delta_after_cursor(state, s)->0;
        match state.dnd_icon {
            Some(icon) => {
                &&& -LOC_LIMIT <= icon.offset.x + d.x <= LOC_LIMIT
                &&& -LOC_LIMIT <= icon.offset.y + d.y <= LOC_LIMIT
            },
            None => true,
        }
    }
}

/// Reacts to one surface commit: translates the owning window by the pending
/// buffer delta when the root surface moved its buffer origin, compensates
/// the cursor hotspot against the delta, drifts the drag-icon offset with it,
/// and runs the initial-configure pass. The returned effects tell the toolkit
/// what to mirror.
#[verifier::rlimit(100)]
pub fn commit(state: &mut ShellState, s: usize) -> (eff: CommitEffects)
    requires
        old(state).wf(),
        s < old(state).surfaces@.len(),
        commit_fits(*old(state), s as int),
    ensures
        final(state).wf(),
        final(state).surfaces@.len() == old(state).surfaces@.len(),
        final(state).popups@.len() == old(state).popups@.len(),
        final(state).space.windows@.len() == old(state).space.windows@.len(),
        final(state).space.outputs@.len() == old(state).space.outputs@.len(),
        final(state).fullscreen.entries@ == old(state).fullscreen.entries@,
        final(state).placement.counter == old(state).placement.counter,
        final(state).placement.memo@ == old(state).placement.memo@,
        // window translation by the pending buffer delta
        if window_move_applies(*old(state), s as int) && old(state).surfaces@[s as int].buffer_delta is Some {
            let d = old(state).surfaces@[s as int].buffer_delta->0;
            let j = choose|i: int|
                first_window_for_surface(old(state).space.windows@, s as int, i);
            let moved_to = Point {
                x: (old(state).space.windows@[j].location.x + d.x) as i32,
                y: (old(state).space.windows@[j].location.y + d.y) as i32,
            };
            &&& final(state).space.windows@ == old(state).space.windows@.update(
                j,
                Window { location: moved_to, ..old(state).space.windows@[j] },
            )
            &&& eff.moved == Some(
                MovedWindow { id: old(state).space.windows@[j].id, location: moved_to },
            )
        } else {
            final(state).space.windows@ == old(state).space.windows@ && eff.moved is None
        },
        // cursor hotspot compensation (opposite direction)
        if cursor_matches(*old(state), s as int) {
            match delta_after_window(*old(state), s as int) {
                Some(d) => match old(state).cursor {
                    CursorStatus::SurfaceCursor { surface, hotspot } => final(state).cursor
                        == (CursorStatus::SurfaceCursor {
                        surface,
                        hotspot: Point {
                            x: (hotspot.x - d.x) as i32,
                            y: (hotspot.y - d.y) as i32,
                        },
                    }),
                    _ => false,
                },
                None => final(state).cursor == old(state).cursor,
            }
        } else {
            final(state).cursor == old(state).cursor
        },
        // drag-icon offset drift (same direction; a missing delta counts as zero)
        if dnd_matches(*old(state), s as int) {
            match old(state).dnd_icon {
                Some(icon) => final(state).dnd_icon == Some(
                    DndIcon {
                        surface: icon.surface,
                        offset: match delta_after_cursor(*old(state), s as int) {
                            Some(d) => Point {
                                x: (icon.offset.x + d.x) as i32,
                                y: (icon.offset.y + d.y) as i32,
                            },
                            None => icon.offset,
                        },
                    },
                ),
                None => false,
            }
        } else {
            final(state).dnd_icon == old(state).dnd_icon
        },
        // the pending delta of `s` is consumed by whichever step read it
        final(state).surfaces@[s as int].buffer_delta == (if window_move_applies(
            *old(state),
            s as int,
        ) || cursor_matches(*old(state), s as int) || dnd_matches(*old(state), s as int) {
            Option::<Point>::None
        } else {
            old(state).surfaces@[s as int].buffer_delta
        }),
        // every other surface changes only by the tree-wide initialization of
        // the committed subtree
        forall|i: int|
            0 <= i < old(state).surfaces@.len() && i != s
                ==> #[trigger] final(state).surfaces@[i] == init_surface(
                old(state).surfaces@,
                i,
                s as int,
            ),
        // the committed surface keeps its tree links and gains auxiliary state
        final(state).surfaces@[s as int].parent == old(state).surfaces@[s as int].parent,
        final(state).surfaces@[s as int].sync_subsurface == old(state).surfaces@[
            s as int
        ].sync_subsurface,
        final(state).surfaces@[s as int].data is Some,
        (!exists|i: int| first_window_for_surface(old(state).space.windows@, s as int, i)) ==> {
            &&& final(state).surfaces@[s as int].data == init_data(
                old(state).surfaces@,
                s as int,
                s as int,
            )
            &&& final(state).surfaces@[s as int].toplevel_configure_sent == old(
                state,
            ).surfaces@[s as int].toplevel_configure_sent
        },
        forall|i: int|
            0 <= i < old(state).surfaces@.len() && i != s
                ==> (#[trigger] final(state).surfaces@[i]).buffer_delta
                == old(state).surfaces@[i].buffer_delta,
        // initial-configure flags only ever rise
        forall|i: int|
            0 <= i < old(state).surfaces@.len()
                && (#[trigger] old(state).surfaces@[i]).toplevel_configure_sent
                ==> final(state).surfaces@[i].toplevel_configure_sent,
        forall|p: int|
            0 <= p < old(state).popups@.len() && (#[trigger] old(state).popups@[p]).configure_sent
                ==> final(state).popups@[p].configure_sent,
        // configure outcome per role, in window -> popup -> layer order
        if exists|i: int| first_window_for_surface(old(state).space.windows@, s as int, i) {
            &&& final(state).surfaces@[s as int].toplevel_configure_sent
            &&& final(state).surfaces@[s as int].data == Some(
                SurfaceData {
                    geometry: spec_geo(old(state).surfaces@, s as int),
                    resize_state: ResizeState::NotResizing,
                },
            )
            &&& eff.configure == (if old(state).surfaces@[s as int].toplevel_configure_sent {
                Option::<ConfigureSent>::None
            } else {
                Some(ConfigureSent::ToplevelConfigure)
            })
        } else if exists|i: int| first_popup_for(old(state).popups@, s as int, i) {
            let p = choose|i: int| first_popup_for(old(state).popups@, s as int, i);
            match old(state).popups@[p].kind {
                PopupKind::Xdg => {
                    &&& final(state).popups@[p].configure_sent
                    &&& eff.configure == (if old(state).popups@[p].configure_sent {
                        Option::<ConfigureSent>::None
                    } else {
                        Some(ConfigureSent::PopupConfigure)
                    })
                },
                PopupKind::InputMethod => final(state).popups@ == old(state).popups@
                    && eff.configure is None,
            }
        } else if exists|o: int, e: int|
            first_output_with_layer(old(state).space.outputs@, s as int, o, e) {
            let (o, e): (int, int) = choose|o: int, e: int|
                first_output_with_layer(old(state).space.outputs@, s as int, o, e);
            &&& final(state).space.outputs@[o].zone == spec_zone(
                old(state).space.outputs@[o].geometry.size,
                old(state).space.outputs@[o].layers@,
            )
            &&& final(state).space.outputs@[o].layers@[e].configure_sent
            &&& eff.configure == (if old(state).space.outputs@[o].layers@[e].configure_sent {
                Option::<ConfigureSent>::None
            } else {
                Some(ConfigureSent::LayerConfigure)
            })
        } else {
            eff.configure is None
        },
{
    let ghost pre = *old(state);
    let mut moved: Option<MovedWindow> = None;

    if !state.surfaces[s].sync_subsurface {
        let root = root_of(&state.surfaces, s);
        match state.space.window_index_by_surface(root) {
            Some(j) => {
                if root == s {
                    proof {
                        lemma_first_window_unique(state.space.windows@, s as int, j as int);
                    }
                    let delta = state.surfaces[s].buffer_delta;
                    state.surfaces.set(s, Surface { buffer_delta: None, ..state.surfaces[s] });
                    match delta {
                        Some(d) => {
                            proof {
                                assert(pre.space.windows@[j as int].wf(pre.surfaces@.len() as int));
                            }
                            let cur = state.space.windows[j].location;
                            let newloc = Point { x: cur.x + d.x, y: cur.y + d.y };
                            let id = state.space.windows[j].id;
                            state.space.map_element(j, newloc, false);
                            moved = Some(MovedWindow { id, location: newloc });
                        },
                        None => {},
                    }
                }
            },
            None => {},
        }
    }
    proof {
        assert forall|i: int| 0 <= i < state.surfaces@.len()
            implies #[trigger] state.surfaces@[i].wf(i) by {
            assert(pre.surfaces@[i].wf(i));
        }
        assert forall|i: int| 0 <= i < state.space.windows@.len()
            implies #[trigger] state.space.windows@[i].wf(state.surfaces@.len() as int) by {
            assert(pre.space.windows@[i].wf(pre.surfaces@.len() as int));
        }
    }

    match state.cursor {
        CursorStatus::SurfaceCursor { surface, hotspot } => {
            if surface == s {
                let delta = state.surfaces[s].buffer_delta;
                state.surfaces.set(s, Surface { buffer_delta: None, ..state.surfaces[s] });
                match delta {
                    Some(d) => {
                        state.cursor = CursorStatus::SurfaceCursor {
                            surface,
                            hotspot: Point { x: hotspot.x - d.x, y: hotspot.y - d.y },
                        };
                    },
                    None => {},
                }
            }
        },
        _ => {},
    }
    proof {
        assert forall|i: int| 0 <= i < state.surfaces@.len()
            implies #[trigger] state.surfaces@[i].wf(i) by {
            assert(pre.surfaces@[i].wf(i));
        }
    }

    match state.dnd_icon {
        Some(icon) => {
            if icon.surface == s {
                let delta = state.surfaces[s].buffer_delta;
                state.surfaces.set(s, Surface { buffer_delta: None, ..state.surfaces[s] });
                let d = match delta {
                    Some(d) => d,
                    None => Point { x: 0, y: 0 },
                };
                state.dnd_icon = Some(
                    DndIcon {
                        surface: icon.surface,
                        offset: Point { x: icon.offset.x + d.x, y: icon.offset.y + d.y },
                    },
                );
            }
        },
        None => {},
    }
    proof {
        assert forall|i: int| 0 <= i < state.surfaces@.len()
            implies #[trigger] state.surfaces@[i].wf(i) by {
            assert(pre.surfaces@[i].wf(i));
        }
        assert(state.wf());
    }
    let ghost mid = *state;

    proof {
        // the mid-pipeline state probes its registries exactly as the initial
        // state does
        assert(mid.space.windows@.len() == pre.space.windows@.len());
        assert forall|i: int| 0 <= i < mid.space.windows@.len()
            implies (#[trigger] mid.space.windows@[i]).surface == pre.space.windows@[i].surface
            && mid.space.windows@[i].id == pre.space.windows@[i].id by {}
        assert(mid.surfaces@[s as int].data == pre.surfaces@[s as int].data);
        assert(mid.surfaces@[s as int].toplevel_configure_sent == pre.surfaces@[
            s as int
        ].toplevel_configure_sent);
        assert(mid.popups@ == pre.popups@);
        assert(mid.space.outputs@ == pre.space.outputs@);
    }

    let conf = ensure_initial_configure(state, s);

    proof {
        assert forall|i: int|
            first_window_for_surface(mid.space.windows@, s as int, i)
                == first_window_for_surface(pre.space.windows@, s as int, i) by {
            if first_window_for_surface(mid.space.windows@, s as int, i) {
                assert forall|j: int| 0 <= j < i
                    implies #[trigger] pre.space.windows@[j].surface != s as int by {
                    assert(mid.space.windows@[j].surface != s as int);
                }
                assert(first_window_for_surface(pre.space.windows@, s as int, i));
            }
            if first_window_for_surface(pre.space.windows@, s as int, i) {
                assert forall|j: int| 0 <= j < i
                    implies #[trigger] mid.space.windows@[j].surface != s as int by {
                    assert(pre.space.windows@[j].surface != s as int);
                }
                assert(first_window_for_surface(mid.space.windows@, s as int, i));
            }
        }
        if exists|i: int| first_window_for_surface(pre.space.windows@, s as int, i) {
            let j = choose|i: int| first_window_for_surface(pre.space.windows@, s as int, i);
            assert(first_window_for_surface(mid.space.windows@, s as int, j));
        }
        if exists|i: int| first_window_for_surface(mid.space.windows@, s as int, i) {
            let j = choose|i: int| first_window_for_surface(mid.space.windows@, s as int, i);
            assert(first_window_for_surface(pre.space.windows@, s as int, j));
        }
        assert(spec_geo(mid.surfaces@, s as int) == spec_geo(pre.surfaces@, s as int));
        assert forall|i: int| 0 <= i < pre.surfaces@.len() && i != s as int
            implies #[trigger] state.surfaces@[i] == init_surface(pre.surfaces@, i, s as int) by {
            crate::surface::lemma_descendant_parents_only(
                mid.surfaces@,
                pre.surfaces@,
                i,
                s as int,
            );
            assert(state.surfaces@[i] == init_surface(mid.surfaces@, i, s as int));
            assert(mid.surfaces@[i] == pre.surfaces@[i]);
        }
        if !(exists|i: int| first_window_for_surface(pre.space.windows@, s as int, i)) {
            crate::surface::lemma_descendant_parents_only(
                mid.surfaces@,
                pre.surfaces@,
                s as int,
                s as int,
            );
            assert(state.surfaces@[s as int] == init_surface(mid.surfaces@, s as int, s as int));
            assert(mid.surfaces@[s as int].data == pre.surfaces@[s as int].data);
        }
    }

    CommitEffects { moved, configure: conf }
}


/// A surface's resize handshake always settles on the ensure-configure pass
/// that follows, whatever size the client actually committed.
pub proof fn lemma_resize_always_settles(
    pre: ShellState,
    post: ShellState,
    s: int,
    eff: Option<ConfigureSent>,
)
    requires
        configure_rel(pre, post, s, eff),
        exists|i: int| first_window_for_surface(pre.space.windows@, s, i),
    ensures
        post.surfaces@[s].data == Some(
            SurfaceData {
                geometry: spec_geo(pre.surfaces@, s),
                resize_state: ResizeState::NotResizing,
            },
        ),
{
}

/// The initial configure of a role fires at most once: whatever the first
/// ensure-configure pass decided, a second pass over the same surface sends
/// nothing.
pub proof fn lemma_initial_configure_once(
    pre: ShellState,
    mid: ShellState,
    post: ShellState,
    s: int,
    e1: Option<ConfigureSent>,
    e2: Option<ConfigureSent>,
)
    requires
        0 <= s < pre.surfaces@.len(),
        configure_rel(pre, mid, s, e1),
        configure_rel(mid, post, s, e2),
    ensures
        e2 is None,
{
    if exists|i: int| first_window_for_surface(pre.space.windows@, s, i) {
        assert(mid.space.windows@ == pre.space.windows@);
        assert(mid.surfaces@[s].toplevel_configure_sent);
    } else if exists|i: int| first_popup_for(pre.popups@, s, i) {
        let p = choose|i: int| first_popup_for(pre.popups@, s, i);
        assert(mid.space.windows@ == pre.space.windows@);
        match pre.popups@[p].kind {
            PopupKind::Xdg => {
                assert(first_popup_for(mid.popups@, s, p)) by {
                    assert(mid.popups@[p].surface == pre.popups@[p].surface);
                    assert forall|jx: int| 0 <= jx < p
                        implies (#[trigger] mid.popups@[jx]).surface != s by {
                        assert(mid.popups@[jx] == pre.popups@[jx]);
                    }
                }
                lemma_first_popup_unique(mid.popups@, s, p);
                assert(mid.popups@[p].configure_sent);
            },
            PopupKind::InputMethod => {
                assert(mid.popups@ == pre.popups@);
                lemma_first_popup_unique(mid.popups@, s, p);
            },
        }
    } else if exists|o: int, e: int| first_output_with_layer(pre.space.outputs@, s, o, e) {
        let (o, e): (int, int) = choose|o: int, e: int|
            first_output_with_layer(pre.space.outputs@, s, o, e);
        assert(mid.space.windows@ == pre.space.windows@);
        assert(mid.popups@ == pre.popups@);
        assert(first_output_with_layer(mid.space.outputs@, s, o, e)) by {
            assert(mid.space.outputs@[o].layers@[e].surface == pre.space.outputs@[o].layers@[
                e
            ].surface);
            assert forall|jx: int| 0 <= jx < e
                implies (#[trigger] mid.space.outputs@[o].layers@[jx]).surface != s by {
                assert(mid.space.outputs@[o].layers@[jx] == pre.space.outputs@[o].layers@[jx]);
            }
            assert forall|ox: int, ex: int|
                0 <= ox < o && 0 <= ex < mid.space.outputs@[ox].layers@.len()
                implies (#[trigger] mid.space.outputs@[ox].layers@[ex]).surface != s by {
                assert(mid.space.outputs@[ox] == pre.space.outputs@[ox]);
            }
        }
        lemma_first_output_layer_unique(mid.space.outputs@, s, o, e);
        assert(mid.space.outputs@[o].layers@[e].configure_sent);
    } else {
        assert(mid.space.windows@ == pre.space.windows@);
        assert(mid.popups@ == pre.popups@);
        assert(mid.space.outputs@ == pre.space.outputs@);
    }
}

} // verus!

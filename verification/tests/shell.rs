use anvil_shell::geometry::{Point, Rect, Size};
use anvil_shell::pipeline::{
    commit, decide_commit_blocker, ensure_initial_configure, fullscreen_output_geometry,
    layer_destroyed, new_layer_surface, BlockerDecision, ConfigureSent, CursorStatus, DndIcon,
    FullscreenRegistry, FullscreenSurface, PendingBuffer, Popup, PopupKind, RegistrationAttempt,
    ShellState,
};
use anvil_shell::space::{Edge, LayerKind, Reservation, Window};
use anvil_shell::surface::{ResizeState, SurfaceData};

fn rect(x: i32, y: i32, w: i32, h: i32) -> Rect {
    Rect { loc: Point { x, y }, size: Size { w, h } }
}

fn window(id: u64, surface: usize, x: i32, y: i32, w: i32, h: i32) -> Window {
    Window {
        id,
        surface,
        bbox: rect(0, 0, w, h),
        location: Point { x, y },
        bounds_hint: None,
        activated: false,
    }
}

fn shell_with_output() -> ShellState {
    let mut st = ShellState::new();
    st.space.outputs.push(anvil_shell::space::Output::new(1, rect(0, 0, 800, 800)));
    st
}

#[test]
fn toplevel_initial_configure_fires_exactly_once() {
    let mut st = shell_with_output();
    let s = st.add_surface(None);
    st.space.windows.push(window(1, s, 0, 0, 100, 100));
    let e1 = commit(&mut st, s);
    assert_eq!(e1.configure, Some(ConfigureSent::ToplevelConfigure));
    assert!(st.surfaces[s].toplevel_configure_sent);
    let e2 = commit(&mut st, s);
    assert_eq!(e2.configure, None);
    let e3 = commit(&mut st, s);
    assert_eq!(e3.configure, None);
}

#[test]
fn waiting_resize_settles_on_next_configure_pass() {
    let mut st = shell_with_output();
    let s = st.add_surface(None);
    st.space.windows.push(window(1, s, 0, 0, 100, 100));
    st.surfaces[s].data = Some(SurfaceData {
        geometry: None,
        resize_state: ResizeState::WaitingForCommit(Size { w: 640, h: 480 }),
    });
    let _ = commit(&mut st, s);
    // the committed size never matters: the handshake is settled regardless
    assert_eq!(st.surfaces[s].data.unwrap().resize_state, ResizeState::NotResizing);
}

#[test]
fn commit_translates_window_by_buffer_delta() {
    let mut st = shell_with_output();
    let s = st.add_surface(None);
    st.space.windows.push(window(9, s, 100, 100, 50, 50));
    st.surfaces[s].buffer_delta = Some(Point { x: 5, y: -7 });
    let eff = commit(&mut st, s);
    assert_eq!(st.space.windows[0].location, Point { x: 105, y: 93 });
    let moved = eff.moved.unwrap();
    assert_eq!(moved.id, 9);
    assert_eq!(moved.location, Point { x: 105, y: 93 });
    assert_eq!(st.surfaces[s].buffer_delta, None);
}

#[test]
fn sync_subsurface_commit_moves_nothing() {
    let mut st = shell_with_output();
    let root = st.add_surface(None);
    st.space.windows.push(window(9, root, 100, 100, 50, 50));
    st.surfaces[root].sync_subsurface = true;
    st.surfaces[root].buffer_delta = Some(Point { x: 5, y: 5 });
    let eff = commit(&mut st, root);
    assert_eq!(st.space.windows[0].location, Point { x: 100, y: 100 });
    assert!(eff.moved.is_none());
}

#[test]
fn cursor_hotspot_moves_against_the_delta() {
    let mut st = ShellState::new();
    let s = st.add_surface(None);
    st.cursor = CursorStatus::SurfaceCursor { surface: s, hotspot: Point { x: 10, y: 20 } };
    st.surfaces[s].buffer_delta = Some(Point { x: 3, y: 4 });
    let _ = commit(&mut st, s);
    match st.cursor {
        CursorStatus::SurfaceCursor { hotspot, .. } => {
            assert_eq!(hotspot, Point { x: 7, y: 16 });
        }
        _ => panic!("cursor changed kind"),
    }
    assert_eq!(st.surfaces[s].buffer_delta, None);
}

#[test]
fn dnd_icon_drifts_with_the_delta() {
    let mut st = ShellState::new();
    let s = st.add_surface(None);
    st.dnd_icon = Some(DndIcon { surface: s, offset: Point { x: 1, y: 1 } });
    st.surfaces[s].buffer_delta = Some(Point { x: 3, y: 4 });
    let _ = commit(&mut st, s);
    assert_eq!(st.dnd_icon.unwrap().offset, Point { x: 4, y: 5 });
    // a commit without a pending delta leaves the offset alone
    let _ = commit(&mut st, s);
    assert_eq!(st.dnd_icon.unwrap().offset, Point { x: 4, y: 5 });
}

#[test]
fn popup_configure_fires_once_and_input_method_never() {
    let mut st = ShellState::new();
    let xdg = st.add_surface(None);
    let im = st.add_surface(None);
    st.popups.push(Popup { surface: xdg, kind: PopupKind::Xdg, configure_sent: false });
    st.popups.push(Popup { surface: im, kind: PopupKind::InputMethod, configure_sent: false });
    let e1 = ensure_initial_configure(&mut st, xdg);
    assert_eq!(e1, Some(ConfigureSent::PopupConfigure));
    let e2 = ensure_initial_configure(&mut st, xdg);
    assert_eq!(e2, None);
    let e3 = ensure_initial_configure(&mut st, im);
    assert_eq!(e3, None);
    assert!(!st.popups[1].configure_sent);
}

#[test]
fn layer_surface_arranged_then_configured_once() {
    let mut st = shell_with_output();
    let s = st.add_surface(None);
    let mapped = new_layer_surface(
        &mut st.space,
        s,
        None,
        LayerKind::Top,
        String::from("bar"),
        Some(Reservation { edge: Edge::Top, thickness: 30 }),
    );
    assert!(mapped);
    let e1 = ensure_initial_configure(&mut st, s);
    assert_eq!(e1, Some(ConfigureSent::LayerConfigure));
    // the zone settles before the configure goes out
    assert_eq!(st.space.outputs[0].zone, rect(0, 30, 800, 770));
    let e2 = ensure_initial_configure(&mut st, s);
    assert_eq!(e2, None);
}

#[test]
fn layer_surface_without_any_output_is_dropped() {
    let mut st = ShellState::new();
    let s = st.add_surface(None);
    let mapped = new_layer_surface(
        &mut st.space,
        s,
        None,
        LayerKind::Background,
        String::from("wallpaper"),
        None,
    );
    assert!(!mapped);
}

#[test]
fn destroyed_layer_leaves_the_stack() {
    let mut st = shell_with_output();
    let s = st.add_surface(None);
    assert!(new_layer_surface(
        &mut st.space,
        s,
        Some(1),
        LayerKind::Overlay,
        String::from("osd"),
        None,
    ));
    assert_eq!(st.space.outputs[0].layers.len(), 1);
    layer_destroyed(&mut st.space, s);
    assert_eq!(st.space.outputs[0].layers.len(), 0);
    // destroying again is a quiet no-op
    layer_destroyed(&mut st.space, s);
    assert_eq!(st.space.outputs[0].layers.len(), 0);
}

#[test]
fn fullscreen_holder_invalidates_on_window_death() {
    let mut st = shell_with_output();
    let s = st.add_surface(None);
    st.space.windows.push(window(42, s, 0, 0, 10, 10));
    let mut fs = FullscreenSurface::new();
    fs.set(42);
    assert_eq!(fs.get(&st.space), Some(42));
    assert!(st.space.remove_window(42));
    assert_eq!(fs.get(&st.space), None);
    // the dead handle was dropped for good
    assert_eq!(fs.clear(), None);
}

#[test]
fn fullscreen_registry_tracks_each_output() {
    let mut st = shell_with_output();
    let a = st.add_surface(None);
    let b = st.add_surface(None);
    st.space.windows.push(window(10, a, 0, 0, 10, 10));
    st.space.windows.push(window(20, b, 50, 50, 10, 10));
    let mut reg = FullscreenRegistry::new();
    reg.set(1, 10);
    reg.set(2, 20);
    assert_eq!(reg.get(1, &st.space), Some(10));
    assert_eq!(reg.get(2, &st.space), Some(20));
    // the window on output 1 dies; only that output's slot invalidates
    assert!(st.space.remove_window(10));
    assert_eq!(reg.get(1, &st.space), None);
    assert_eq!(reg.get(2, &st.space), Some(20));
    assert_eq!(reg.clear(2), Some(20));
    assert_eq!(reg.get(2, &st.space), None);
    // an output never fullscreened answers none
    assert_eq!(reg.get(3, &st.space), None);
}

#[test]
fn fullscreen_clear_returns_the_handle() {
    let mut fs = FullscreenSurface::new();
    fs.set(7);
    assert_eq!(fs.clear(), Some(7));
    assert_eq!(fs.clear(), None);
}

#[test]
fn fullscreen_geometry_prefers_the_named_output() {
    let mut st = shell_with_output();
    st.space.outputs.push(anvil_shell::space::Output::new(2, rect(800, 0, 640, 480)));
    let s = st.add_surface(None);
    st.space.windows.push(window(1, s, 10, 10, 50, 50));
    assert_eq!(
        fullscreen_output_geometry(&st.space, s, Some(2)),
        Some(rect(800, 0, 640, 480))
    );
    // an unknown output falls back to the window's own output
    assert_eq!(
        fullscreen_output_geometry(&st.space, s, Some(99)),
        Some(rect(0, 0, 800, 800))
    );
    assert_eq!(fullscreen_output_geometry(&st.space, s, None), Some(rect(0, 0, 800, 800)));
}

#[test]
fn window_for_surface_finds_the_wrapping_window() {
    let mut st = shell_with_output();
    let a = st.add_surface(None);
    let b = st.add_surface(None);
    st.space.windows.push(window(5, a, 0, 0, 10, 10));
    assert_eq!(st.window_for_surface(a), Some(5));
    assert_eq!(st.window_for_surface(b), None);
}

#[test]
fn blocker_prefers_the_acquire_point() {
    let shared = PendingBuffer { is_shared_buffer: true, has_acquire_point: true };
    let ok = RegistrationAttempt { blocker_ready: true, source_registered: true };
    let fail = RegistrationAttempt { blocker_ready: false, source_registered: false };
    assert_eq!(
        decide_commit_blocker(shared, true, ok, ok),
        BlockerDecision::AttachAcquireBlocker
    );
    // acquire path failing falls back to the readable wait
    assert_eq!(
        decide_commit_blocker(shared, true, fail, ok),
        BlockerDecision::AttachReadableBlocker
    );
    // both failing lets the commit through, best effort
    assert_eq!(
        decide_commit_blocker(shared, true, fail, fail),
        BlockerDecision::ProceedUnblocked
    );
    // no shared buffer: nothing to wait for
    let plain = PendingBuffer { is_shared_buffer: false, has_acquire_point: false };
    assert_eq!(
        decide_commit_blocker(plain, true, ok, ok),
        BlockerDecision::ProceedUnblocked
    );
    // a registered blocker without a client cannot be released later
    let no_acquire = PendingBuffer { is_shared_buffer: true, has_acquire_point: false };
    assert_eq!(
        decide_commit_blocker(no_acquire, false, fail, ok),
        BlockerDecision::ProceedUnblocked
    );
}

#[test]
fn subtree_commit_initializes_every_descendant() {
    let mut st = ShellState::new();
    let root = st.add_surface(None);
    let child = st.add_surface(Some(root));
    let grandchild = st.add_surface(Some(child));
    let other = st.add_surface(None);
    let _ = commit(&mut st, root);
    assert!(st.surfaces[root].data.is_some());
    assert!(st.surfaces[child].data.is_some());
    assert!(st.surfaces[grandchild].data.is_some());
    assert!(st.surfaces[other].data.is_none());
}

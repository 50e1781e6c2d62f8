use anvil_shell::geometry::{Point, Rect, Size};
use anvil_shell::placement::{
    ceil_sqrt, fixup_positions, place_new_window, PlacementSession,
};
use anvil_shell::space::{Output, Space, Window};

fn rect(x: i32, y: i32, w: i32, h: i32) -> Rect {
    Rect { loc: Point { x, y }, size: Size { w, h } }
}

fn window(id: u64, surface: usize, x: i32, y: i32, w: i32, h: i32) -> Window {
    Window {
        id,
        surface,
        bbox: rect(0, 0, w, h),
        location: Point { x, y },
        bounds_hint: None,
        activated: false,
    }
}

#[test]
fn ceil_sqrt_exact_values() {
    assert_eq!(ceil_sqrt(1), 1);
    assert_eq!(ceil_sqrt(2), 2);
    assert_eq!(ceil_sqrt(4), 2);
    assert_eq!(ceil_sqrt(5), 3);
    assert_eq!(ceil_sqrt(9), 3);
    assert_eq!(ceil_sqrt(10), 4);
    assert_eq!(ceil_sqrt(65536), 256);
}

#[test]
fn first_window_is_centered() {
    let mut space = Space {
        outputs: vec![Output::new(7, rect(0, 0, 800, 800))],
        windows: vec![window(1, 0, 0, 0, 0, 0)],
    };
    let mut session = PlacementSession::new();
    place_new_window(&mut space, &mut session, Point { x: 10, y: 10 }, 0, true);
    assert_eq!(space.windows[0].location, Point { x: 400, y: 400 });
    assert_eq!(space.windows[0].bounds_hint, Some(Size { w: 800, h: 800 }));
}

#[test]
fn first_ring_has_eight_distinct_slots() {
    let mut space = Space {
        outputs: vec![Output::new(7, rect(0, 0, 800, 800))],
        windows: (0..9).map(|i| window(i as u64 + 1, i, 0, 0, 0, 0)).collect(),
    };
    let mut session = PlacementSession::new();
    for i in 0..9 {
        place_new_window(&mut space, &mut session, Point { x: 10, y: 10 }, i, false);
    }
    // grid is max(3, ceil(sqrt(n))) = 3 for every n <= 9, so a cell is 266.
    let expected = [
        (400, 400), // ordinal 1: centre
        (666, 400), // right
        (666, 666), // bottom-right
        (400, 666), // bottom
        (134, 666), // bottom-left
        (134, 400), // left
        (134, 134), // top-left
        (400, 134), // top
        (666, 134), // top-right
    ];
    let mut seen = Vec::new();
    for (i, (x, y)) in expected.iter().enumerate() {
        let loc = space.windows[i].location;
        assert_eq!((loc.x, loc.y), (*x, *y));
        assert!(!seen.contains(&(loc.x, loc.y)));
        seen.push((loc.x, loc.y));
    }
}

#[test]
fn same_ordinal_keeps_its_slot() {
    let mut session = PlacementSession::new();
    let u1 = rect(0, 0, 800, 800);
    let u2 = rect(0, 0, 400, 200);
    let first = session.slot_for(2, u1);
    // even against a changed usable area the memoized ordinal answers the same
    let second = session.slot_for(2, u2);
    assert_eq!(first, second);
    // a fresh ordinal does follow the new geometry
    let third = session.slot_for(3, u2);
    assert_ne!(first, third);
}

#[test]
fn fixup_packs_outputs_left_to_right() {
    let mut space = Space {
        outputs: vec![
            Output::new(1, rect(500, 300, 800, 600)),
            Output::new(2, rect(-100, 50, 1024, 768)),
        ],
        windows: vec![],
    };
    let mut session = PlacementSession::new();
    fixup_positions(&mut space, &mut session, Point { x: 0, y: 0 });
    assert_eq!(space.outputs[0].geometry, rect(0, 0, 800, 600));
    assert_eq!(space.outputs[1].geometry, rect(800, 0, 1024, 768));
}

#[test]
fn fixup_twice_moves_nothing() {
    let mut space = Space {
        outputs: vec![Output::new(1, rect(0, 0, 800, 800))],
        windows: vec![
            window(1, 0, 10, 10, 50, 50),
            window(2, 1, 5000, 5000, 50, 50), // orphaned
        ],
    };
    let mut session = PlacementSession::new();
    fixup_positions(&mut space, &mut session, Point { x: 0, y: 0 });
    let after_first: Vec<Point> = space.windows.iter().map(|w| w.location).collect();
    assert_eq!(after_first[0], Point { x: 10, y: 10 });
    fixup_positions(&mut space, &mut session, Point { x: 0, y: 0 });
    let after_second: Vec<Point> = space.windows.iter().map(|w| w.location).collect();
    assert_eq!(after_first, after_second);
}

#[test]
fn orphan_lands_in_a_zone_after_output_removal() {
    // two outputs side by side; the second then disappears
    let mut space = Space {
        outputs: vec![
            Output::new(1, rect(0, 0, 800, 800)),
            Output::new(2, rect(800, 0, 800, 800)),
        ],
        windows: vec![window(1, 0, 900, 100, 40, 40)],
    };
    space.outputs.remove(1);
    let mut session = PlacementSession::new();
    fixup_positions(&mut space, &mut session, Point { x: 0, y: 0 });
    let w = &space.windows[0];
    let global = Rect {
        loc: Point { x: w.location.x + w.bbox.loc.x, y: w.location.y + w.bbox.loc.y },
        size: w.bbox.size,
    };
    assert!(space.outputs[0].usable().contains_rect(&global));
}

#[test]
fn window_spilling_over_the_edge_is_re_placed() {
    // its top-left corner is on the output, but the box spills past x = 800
    let mut space = Space {
        outputs: vec![Output::new(1, rect(0, 0, 800, 800))],
        windows: vec![window(1, 0, 790, 10, 50, 50)],
    };
    let mut session = PlacementSession::new();
    fixup_positions(&mut space, &mut session, Point { x: 0, y: 0 });
    assert_eq!(session.counter, 1);
    let w = &space.windows[0];
    assert_eq!(w.location, Point { x: 400 - 25, y: 400 - 25 });
    let global = Rect {
        loc: Point { x: w.location.x + w.bbox.loc.x, y: w.location.y + w.bbox.loc.y },
        size: w.bbox.size,
    };
    assert!(space.outputs[0].usable().contains_rect(&global));
}

#[test]
fn two_orphans_are_both_re_placed_in_order() {
    let mut space = Space {
        outputs: vec![Output::new(1, rect(0, 0, 800, 800))],
        windows: vec![
            window(1, 0, 5000, 5000, 10, 10),
            window(2, 1, 20, 20, 10, 10),
            window(3, 2, -4000, 0, 10, 10),
        ],
    };
    let mut session = PlacementSession::new();
    fixup_positions(&mut space, &mut session, Point { x: 0, y: 0 });
    assert_eq!(session.counter, 2);
    // ordinal 1 centres the first orphan; ordinal 2 takes ring 1's right cell
    assert_eq!(space.windows[0].location, Point { x: 395, y: 395 });
    assert_eq!(space.windows[2].location, Point { x: 661, y: 395 });
    // the window already in a zone stays put
    assert_eq!(space.windows[1].location, Point { x: 20, y: 20 });
}

#[test]
fn placement_without_outputs_uses_synthetic_area() {
    let mut space = Space { outputs: vec![], windows: vec![window(1, 0, 0, 0, 100, 80)] };
    let mut session = PlacementSession::new();
    place_new_window(&mut space, &mut session, Point { x: 0, y: 0 }, 0, false);
    // centre of the 800 by 800 fallback, adjusted by half the window size
    assert_eq!(space.windows[0].location, Point { x: 400 - 50, y: 400 - 40 });
    assert_eq!(space.windows[0].bounds_hint, Some(Size { w: 800, h: 800 }));
}

//! Window placement engine.
//!
//! A freshly mapped window gets a slot on a square spiral of grid cells around
//! the centre of the target output's usable area: the first window sits at the
//! centre, later ones walk the eight directions of each ring (right,
//! bottom-right, bottom, bottom-left, left, top-left, top, top-right) before
//! moving a ring outward. The grid refines as windows arrive: each axis is
//! divided by `max(3, ceil(sqrt(ordinal)))`. Slots are memoized per ordinal in
//! an explicit layout session, so an ordinal that recurs after an unmap keeps
//! its slot.

use vstd::prelude::*;
use vstd::arithmetic::div_mod::{lemma_fundamental_div_mod, lemma_div_pos_is_pos};

use crate::geometry::{Point, Rect, Size, COORD_LIMIT};
use crate::space::{lemma_spec_zone_in, spec_zone, first_output_under, Output, Space, Window, MAX_OUTPUTS};

verus! {

/// Most window ordinals a session may hand out.
pub const MAX_WINDOWS: usize = 65536;

/// Magnitude bound on every slot the engine computes.
pub const SLOT_BOUND: i32 = 0x800_0000;

/// Usable-area origins stay within this bound (output span plus zone offset).
pub const USABLE_LOC_BOUND: i32 = 0x500_0000;

/// Smallest integer `r >= r0` with `r * r >= n`, searched upward.
pub open spec fn css(n: int, r: int) -> int
    decreases 256 - r,
{
    if r * r >= n {
        r
    } else if r < 256 {
        css(n, r + 1)
    } else {
        257
    }
}

/// `css` really is the ceiling of the square root.
pub proof fn lemma_css_props(n: int, r0: int)
    requires
        1 <= n <= 65536,
        0 <= r0 <= 256,
        r0 == 0 || (r0 - 1) * (r0 - 1) < n,
    ensures
        r0 <= css(n, r0) <= 256,
        css(n, r0) * css(n, r0) >= n,
        (css(n, r0) - 1) * (css(n, r0) - 1) < n,
    decreases 256 - r0,
{
    if r0 * r0 >= n {
    } else if r0 < 256 {
        lemma_css_props(n, r0 + 1);
    } else {
        assert(256 * 256 >= n);
    }
}

/// Ceiling square root, for grid sizing.
pub fn ceil_sqrt(n: usize) -> (r: usize)
    requires
        1 <= n <= 65536,
    ensures
        r as int == css(n as int, 0),
        1 <= r <= 256,
        r * r >= n,
        (r - 1) * (r - 1) < n,
{
    proof {
        lemma_css_props(n as int, 0);
    }
    let mut r: usize = 0;
    loop
        invariant
            1 <= n <= 65536,
            r <= 256,
            css(n as int, 0) == css(n as int, r as int),
            css(n as int, 0) >= r,
        decreases 256 - r,
    {
        proof {
            assert(r * r <= 65536) by (nonlinear_arith)
                requires
                    r <= 256,
            ;
        }
        let sq = r * r;
        if sq >= n {
            proof {
                assert(css(n as int, r as int) == r as int);
                lemma_css_props(n as int, 0);
            }
            return r;
        }
        proof {
            if r == 256 {
                assert(false);
            }
            assert(css(n as int, r as int) == css(n as int, r as int + 1));
            lemma_css_props(n as int, r as int + 1);
        }
        r = r + 1;
    }
}

/// Grid refinement for ordinal `n`: at least 3 cells per axis.
pub open spec fn spec_grid(n: int) -> int {
    if css(n, 0) < 3 {
        3
    } else {
        css(n, 0)
    }
}

/// Spiral ring of ordinal `n >= 2`: eight slots per ring.
pub open spec fn spec_ring(n: int) -> int {
    (n - 2) / 8 + 1
}

/// Unit direction of spiral step `k` (0 = right, then clockwise).
pub open spec fn spec_dir_x(k: int) -> int {
    if k == 0 {
        1
    } else if k == 1 {
        1
    } else if k == 2 {
        0
    } else if k == 3 {
        -1
    } else if k == 4 {
        -1
    } else if k == 5 {
        -1
    } else if k == 6 {
        0
    } else {
        1
    }
}

pub open spec fn spec_dir_y(k: int) -> int {
    if k == 0 {
        0
    } else if k == 1 {
        1
    } else if k == 2 {
        1
    } else if k == 3 {
        1
    } else if k == 4 {
        0
    } else if k == 5 {
        -1
    } else if k == 6 {
        -1
    } else {
        -1
    }
}

pub open spec fn spec_off(unit: int, m: int) -> int {
    if unit == 1 {
        m
    } else if unit == -1 {
        -m
    } else {
        0
    }
}

/// Centre of the grid laid over the usable area.
pub open spec fn spec_center_x(usable: Rect) -> int {
    usable.loc.x + usable.size.w / 2
}

pub open spec fn spec_center_y(usable: Rect) -> int {
    usable.loc.y + usable.size.h / 2
}

/// The grid point of ordinal `n` on the usable area: the centre for the first
/// window, a spiral cell for every later one.
pub open spec fn spec_slot(n: int, usable: Rect) -> Point {
    let cx = spec_center_x(usable);
    let cy = spec_center_y(usable);
    if n == 1 {
        Point { x: cx as i32, y: cy as i32 }
    } else {
        let g = spec_grid(n);
        let cw = usable.size.w as int / g;
        let ch = usable.size.h as int / g;
        let ring = spec_ring(n);
        let k = (n - 2) % 8;
        Point {
            x: (cx + spec_off(spec_dir_x(k), ring * cw)) as i32,
            y: (cy + spec_off(spec_dir_y(k), ring * ch)) as i32,
        }
    }
}

/// Bounds requested of a usable area handed to the engine.
pub open spec fn usable_wf(usable: Rect) -> bool {
    &&& -USABLE_LOC_BOUND <= usable.loc.x <= USABLE_LOC_BOUND
    &&& -USABLE_LOC_BOUND <= usable.loc.y <= USABLE_LOC_BOUND
    &&& usable.size.wf()
}

/// A ring never reaches further than 33 output widths: the ring index grows
/// with the ordinal, but the cell shrinks with its square root.
pub proof fn lemma_ring_cell_bound(n: int, r: int, g: int, cw: int, ring: int, w: int)
    requires
        2 <= n <= 65536,
        r == css(n, 0),
        g == spec_grid(n),
        0 <= w <= COORD_LIMIT,
        cw == w / g,
        ring == spec_ring(n),
    ensures
        0 <= cw <= w,
        1 <= ring,
        ring * cw <= 33 * w,
{
    lemma_css_props(n, 0);
    assert(1 <= r <= 256);
    assert(r * r >= n);
    assert(3 <= g <= 256);
    assert(r <= g);
    lemma_div_pos_is_pos(w, g);
    lemma_fundamental_div_mod(w, g);
    assert(w % g < g) by {
        vstd::arithmetic::div_mod::lemma_mod_bound(w, g);
    }
    assert(g * cw <= w);
    lemma_fundamental_div_mod(n - 2, 8);
    assert((n - 2) % 8 >= 0) by {
        vstd::arithmetic::div_mod::lemma_mod_bound(n - 2, 8);
    }
    assert(8 * ring <= n + 6);
    assert(1 <= ring);
    assert(cw <= w) by (nonlinear_arith)
        requires
            g * cw <= w,
            0 <= cw,
            3 <= g,
    ;
    assert(ring * cw <= 33 * w) by (nonlinear_arith)
        requires
            8 * ring <= n + 6,
            n <= r * r,
            1 <= r <= 256,
            r <= g,
            g * cw <= w,
            0 <= cw <= w,
            0 <= w,
            1 <= ring,
    ;
}

/// A computed slot stays within `SLOT_BOUND` of the origin.
pub proof fn lemma_slot_bounded(n: int, usable: Rect)
    requires
        1 <= n <= 65536,
        usable_wf(usable),
    ensures
        -SLOT_BOUND <= spec_center_x(usable) + spec_off(
            spec_dir_x((n - 2) % 8),
            spec_ring(n) * (usable.size.w as int / spec_grid(n)),
        ) <= SLOT_BOUND,
        -SLOT_BOUND <= spec_center_y(usable) + spec_off(
            spec_dir_y((n - 2) % 8),
            spec_ring(n) * (usable.size.h as int / spec_grid(n)),
        ) <= SLOT_BOUND,
        -SLOT_BOUND <= spec_center_x(usable) <= SLOT_BOUND,
        -SLOT_BOUND <= spec_center_y(usable) <= SLOT_BOUND,
    {
    let w = usable.size.w as int;
    let h = usable.size.h as int;
    let g = spec_grid(n);
    let cw = w / g;
    let ch = h / g;
    let ring = spec_ring(n);
    let k = (n - 2) % 8;
    assert(0 <= w / 2 <= COORD_LIMIT);
    assert(0 <= h / 2 <= COORD_LIMIT);
    if n >= 2 {
        lemma_ring_cell_bound(n, css(n, 0), g, cw, ring, w);
        lemma_ring_cell_bound(n, css(n, 0), g, ch, ring, h);
        assert(-33 * COORD_LIMIT <= spec_off(spec_dir_x(k), ring * cw) <= 33 * COORD_LIMIT);
        assert(-33 * COORD_LIMIT <= spec_off(spec_dir_y(k), ring * ch) <= 33 * COORD_LIMIT);
    } else {
        assert(n == 1);
        assert(ring == 0);
        assert(ring * cw == 0) by (nonlinear_arith)
            requires
                ring == 0,
        ;
        assert(ring * ch == 0) by (nonlinear_arith)
            requires
                ring == 0,
        ;
        assert(spec_off(spec_dir_x(k), ring * cw) == 0);
        assert(spec_off(spec_dir_y(k), ring * ch) == 0);
    }
}

/// One memoized slot.
#[derive(Clone, Copy, Debug)]
pub struct OrdinalSlot {
    pub ordinal: usize,
    pub pos: Point,
}

/// The layout session: the running window count and the memo of slots already
/// handed out, keyed by mapping ordinal.
#[derive(Clone, Debug)]
pub struct PlacementSession {
    pub counter: usize,
    pub memo: Vec<OrdinalSlot>,
}

pub open spec fn memo_has(memo: Seq<OrdinalSlot>, n: int) -> bool {
    exists|i: int| 0 <= i < memo.len() && #[trigger] memo[i].ordinal == n
}

/// The memoized slot of ordinal `n` (memo keys are unique).
pub open spec fn memo_pos(memo: Seq<OrdinalSlot>, n: int) -> Point {
    memo[choose|i: int| 0 <= i < memo.len() && #[trigger] memo[i].ordinal == n].pos
}

/// With unique keys, the memoized slot is the one at any matching index.
pub proof fn lemma_memo_pos_unique(memo: Seq<OrdinalSlot>, n: int, i: int)
    requires
        forall|a: int, b: int|
            0 <= a < b < memo.len() ==> #[trigger] memo[a].ordinal != #[trigger] memo[b].ordinal,
        0 <= i < memo.len(),
        memo[i].ordinal == n,
    ensures
        memo_has(memo, n),
        memo_pos(memo, n) == memo[i].pos,
{
    assert(memo_has(memo, n));
    let w = choose|j: int| 0 <= j < memo.len() && #[trigger] memo[j].ordinal == n;
    assert(0 <= w < memo.len() && memo[w].ordinal == n);
    if w < i {
        assert(memo[w].ordinal != memo[i].ordinal);
        assert(false);
    } else if w > i {
        assert(memo[i].ordinal != memo[w].ordinal);
        assert(false);
    }
}

impl PlacementSession {
    pub open spec fn wf(self) -> bool {
        &&& self.counter <= MAX_WINDOWS
        &&& forall|i: int, j: int|
            0 <= i < j < self.memo.len() ==> #[trigger] self.memo[i].ordinal
                != #[trigger] self.memo[j].ordinal
        &&& forall|i: int|
            0 <= i < self.memo.len() ==> -SLOT_BOUND <= (#[trigger] self.memo[i].pos).x
                <= SLOT_BOUND && -SLOT_BOUND <= self.memo[i].pos.y <= SLOT_BOUND
    }

    /// A fresh session: no windows yet, nothing memoized.
    pub fn new() -> (r: PlacementSession)
        ensures
            r.counter == 0,
            r.memo@.len() == 0,
            r.wf(),
    {
        PlacementSession { counter: 0, memo: Vec::new() }
    }

    /// What a slot request leaves behind: the memoized slot when the ordinal
    /// recurs, else the freshly computed grid point, memoized from ordinal 2 on.
    pub open spec fn spec_slot_result(memo: Seq<OrdinalSlot>, n: int, usable: Rect) -> Point {
        if n >= 2 && memo_has(memo, n) {
            memo_pos(memo, n)
        } else {
            spec_slot(n, usable)
        }
    }

    /// Grid point for ordinal `ordinal` on `usable`, consulting and feeding
    /// the memo.
    pub fn slot_for(&mut self, ordinal: usize, usable: Rect) -> (r: Point)
        requires
            old(self).wf(),
            1 <= ordinal <= MAX_WINDOWS,
            usable_wf(usable),
        ensures
            final(self).wf(),
            r == Self::spec_slot_result(old(self).memo@, ordinal as int, usable),
            -SLOT_BOUND <= r.x <= SLOT_BOUND,
            -SLOT_BOUND <= r.y <= SLOT_BOUND,
            final(self).counter == old(self).counter,
            final(self).memo@ == if ordinal >= 2 && !memo_has(old(self).memo@, ordinal as int) {
                old(self).memo@.push(OrdinalSlot { ordinal, pos: r })
            } else {
                old(self).memo@
            },
    {
        if ordinal >= 2 {
            let nm = self.memo.len();
            let mut i: usize = 0;
            while i < nm
                invariant
                    ordinal >= 2,
                    self.wf(),
                    self.memo@ == old(self).memo@,
                    self.counter == old(self).counter,
                    nm == self.memo.len(),
                    i <= nm,
                    forall|j: int| 0 <= j < i ==> #[trigger] self.memo@[j].ordinal != ordinal,
                decreases nm - i,
            {
                if self.memo[i].ordinal == ordinal {
                    proof {
                        lemma_memo_pos_unique(self.memo@, ordinal as int, i as int);
                    }
                    return self.memo[i].pos;
                }
                i += 1;
            }
        }
        let pos = compute_slot(ordinal, usable);
        if ordinal >= 2 {
            let ghost pre = self.memo@;
            self.memo.push(OrdinalSlot { ordinal, pos });
            proof {
                assert forall|i: int, j: int|
                    0 <= i < j < self.memo@.len() implies #[trigger] self.memo@[i].ordinal
                    != #[trigger] self.memo@[j].ordinal by {
                    if j == pre.len() {
                        assert(self.memo@[i] == pre[i]);
                    }
                }
            }
        }
        pos
    }
}

/// Computes the grid point of ordinal `n` on `usable`.
pub fn compute_slot(n: usize, usable: Rect) -> (r: Point)
    requires
        1 <= n <= MAX_WINDOWS,
        usable_wf(usable),
    ensures
        r == spec_slot(n as int, usable),
        -SLOT_BOUND <= r.x <= SLOT_BOUND,
        -SLOT_BOUND <= r.y <= SLOT_BOUND,
{
    proof {
        lemma_slot_bounded(n as int, usable);
    }
    let cx = usable.loc.x + usable.size.w / 2;
    let cy = usable.loc.y + usable.size.h / 2;
    if n == 1 {
        return Point { x: cx, y: cy };
    }
    let root = ceil_sqrt(n);
    let g: i32 = if root < 3 {
        3
    } else {
        root as i32
    };
    let cw = usable.size.w / g;
    let ch = usable.size.h / g;
    let idx = n - 2;
    let ring_usize = idx / 8 + 1;
    proof {
        lemma_ring_cell_bound(
            n as int,
            css(n as int, 0),
            spec_grid(n as int),
            usable.size.w as int / spec_grid(n as int),
            spec_ring(n as int),
            usable.size.w as int,
        );
        lemma_ring_cell_bound(
            n as int,
            css(n as int, 0),
            spec_grid(n as int),
            usable.size.h as int / spec_grid(n as int),
            spec_ring(n as int),
            usable.size.h as int,
        );
    }
    let ring: i32 = ring_usize as i32;
    let mx = ring * cw;
    let my = ring * ch;
    let k = idx % 8;
    let x = if k == 0 || k == 1 || k == 7 {
        cx + mx
    } else if k == 3 || k == 4 || k == 5 {
        cx - mx
    } else {
        cx
    };
    let y = if k == 1 || k == 2 || k == 3 {
        cy + my
    } else if k == 5 || k == 6 || k == 7 {
        cy - my
    } else {
        cy
    };
    Point { x, y }
}


/// The usable area placement targets for pointer position `p`: the output
/// under the pointer, else the first output, else a synthetic 800 by 800 area.
pub open spec fn spec_usable_area(os: Seq<Output>, p: Point) -> Rect {
    if exists|i: int| first_output_under(os, p, i) {
        os[choose|i: int| first_output_under(os, p, i)].spec_usable()
    } else if os.len() > 0 {
        os[0].spec_usable()
    } else {
        Rect { loc: Point { x: 0, y: 0 }, size: Size { w: 800, h: 800 } }
    }
}

/// The first output under a point is the only first output under it.
pub proof fn lemma_first_output_under_unique(os: Seq<Output>, p: Point, i: int)
    requires
        first_output_under(os, p, i),
    ensures
        (choose|j: int| first_output_under(os, p, j)) == i,
{
    let w = choose|j: int| first_output_under(os, p, j);
    assert(first_output_under(os, p, w));
    if w < i {
        assert(!os[w].geometry.spec_contains(p));
        assert(false);
    } else if w > i {
        assert(!os[i].geometry.spec_contains(p));
        assert(false);
    }
}

/// Computes the usable area placement targets for pointer position `p`.
pub fn usable_area(space: &Space, pointer: Point) -> (r: Rect)
    requires
        space.bounded(),
    ensures
        r == spec_usable_area(space.outputs@, pointer),
        usable_wf(r),
{
    let target = space.output_under(pointer);
    match target {
        Some(i) => {
            proof {
                lemma_first_output_under_unique(space.outputs@, pointer, i as int);
                assert(space.outputs@[i as int].geom_wf());
            }
            space.outputs[i].usable()
        },
        None => {
            if space.outputs.len() > 0 {
                proof {
                    assert(space.outputs@[0].geom_wf());
                }
                space.outputs[0].usable()
            } else {
                Rect { loc: Point { x: 0, y: 0 }, size: Size { w: 800, h: 800 } }
            }
        },
    }
}

/// The windows, counter and memo one placement call leaves behind, as one
/// deterministic step: the bounds hint is the usable area's size, and the
/// window is centred on the grid point of the next ordinal (memoized slots
/// are honoured).
pub open spec fn place_step(
    pre_outputs: Seq<Output>,
    ws: Seq<Window>,
    counter: int,
    memo: Seq<OrdinalSlot>,
    pointer: Point,
    w: int,
    activate: bool,
) -> (Seq<Window>, int, Seq<OrdinalSlot>) {
    let usable = spec_usable_area(pre_outputs, pointer);
    let n = counter + 1;
    let pos = PlacementSession::spec_slot_result(memo, n, usable);
    let adj = Point {
        x: (pos.x - ws[w].bbox.size.w / 2) as i32,
        y: (pos.y - ws[w].bbox.size.h / 2) as i32,
    };
    (
        ws.update(
            w,
            Window {
                location: adj,
                bounds_hint: Some(usable.size),
                activated: ws[w].activated || activate,
                ..ws[w]
            },
        ),
        n,
        if n >= 2 && !memo_has(memo, n) {
            memo.push(OrdinalSlot { ordinal: n as usize, pos })
        } else {
            memo
        },
    )
}

/// What placing window `w` leaves behind: exactly one `place_step`.
pub open spec fn place_rel(
    pre_outputs: Seq<Output>,
    pre_windows: Seq<Window>,
    pre_p: PlacementSession,
    post_windows: Seq<Window>,
    post_p: PlacementSession,
    pointer: Point,
    w: int,
    activate: bool,
) -> bool {
    let stepped = place_step(
        pre_outputs,
        pre_windows,
        pre_p.counter as int,
        pre_p.memo@,
        pointer,
        w,
        activate,
    );
    &&& post_windows == stepped.0
    &&& post_p.counter == stepped.1
    &&& post_p.memo@ == stepped.2
}

/// Chooses the initial map location of a freshly mapped window: hands the
/// client the usable area's size as bounds hint, then centres the window on
/// the next spiral grid point of the layout session.
pub fn place_new_window(
    space: &mut Space,
    session: &mut PlacementSession,
    pointer: Point,
    w: usize,
    activate: bool,
)
    requires
        old(space).bounded(),
        w < old(space).windows.len(),
        old(session).wf(),
        old(session).counter < MAX_WINDOWS,
    ensures
        final(space).bounded(),
        final(session).wf(),
        final(space).outputs@ == old(space).outputs@,
        final(space).windows@.len() == old(space).windows@.len(),
        final(session).counter == old(session).counter + 1,
        place_rel(
            old(space).outputs@,
            old(space).windows@,
            *old(session),
            final(space).windows@,
            *final(session),
            pointer,
            w as int,
            activate,
        ),
{
    let usable = usable_area(space, pointer);
    let n = session.counter + 1;
    session.counter = n;
    let pos = session.slot_for(n, usable);
    proof {
        assert(space.windows@[w as int].geom_wf());
    }
    let win = space.windows[w];
    let adj = Point { x: pos.x - win.bbox.size.w / 2, y: pos.y - win.bbox.size.h / 2 };
    let updated = Window {
        location: adj,
        bounds_hint: Some(usable.size),
        activated: win.activated || activate,
        ..win
    };
    space.windows.set(w, updated);
    proof {
        assert(updated.geom_wf());
        assert forall|i: int| 0 <= i < space.windows@.len() implies #[trigger] space.windows@[i].geom_wf() by {
            if i != w as int {
                assert(space.windows@[i] == old(space).windows@[i]);
            }
        }
    }
}

/// Sum of the widths of the first `i` outputs: where output `i` lands in the
/// left-to-right re-layout.
pub open spec fn widths_prefix(os: Seq<Output>, i: int) -> int
    decreases i,
{
    if i <= 0 {
        0
    } else {
        widths_prefix(os, i - 1) + os[i - 1].geometry.size.w
    }
}

pub proof fn lemma_widths_prefix_bound(os: Seq<Output>, i: int)
    requires
        0 <= i <= os.len(),
        forall|j: int| 0 <= j < os.len() ==> #[trigger] os[j].geom_wf(),
    ensures
        0 <= widths_prefix(os, i) <= i * (COORD_LIMIT as int),
    decreases i,
{
    if i > 0 {
        lemma_widths_prefix_bound(os, i - 1);
        assert(os[i - 1].geom_wf());
        assert((i - 1) * (COORD_LIMIT as int) + COORD_LIMIT == i * (COORD_LIMIT as int))
            by (nonlinear_arith);
    }
}

/// Output `i` after the topology fixup: packed left-to-right at y = 0, its
/// layer stack re-arranged.
pub open spec fn phase1_output(os: Seq<Output>, i: int) -> Output {
    let o = os[i];
    Output {
        geometry: Rect {
            loc: Point { x: widths_prefix(os, i) as i32, y: 0 },
            size: o.geometry.size,
        },
        zone: spec_zone(o.geometry.size, o.layers@),
        ..o
    }
}

/// Whether the window's bounding box, in absolute coordinates, lies wholly
/// inside some output's usable zone.
pub open spec fn in_any_zone(os: Seq<Output>, w: Window) -> bool {
    exists|o: int|
        0 <= o < os.len() && (#[trigger] os[o].spec_usable()).spec_contains_rect(
            w.spec_global_bbox(),
        )
}

/// Whether the window's bounding box lies wholly in some of this space's
/// usable zones.
pub fn window_in_some_zone(space: &Space, w: usize) -> (r: bool)
    requires
        space.bounded(),
        w < space.windows.len(),
    ensures
        r == in_any_zone(space.outputs@, space.windows@[w as int]),
{
    proof {
        assert(space.windows@[w as int].geom_wf());
    }
    let win = space.windows[w];
    let global = Rect {
        loc: Point { x: win.location.x + win.bbox.loc.x, y: win.location.y + win.bbox.loc.y },
        size: win.bbox.size,
    };
    let n = space.outputs.len();
    let mut i: usize = 0;
    while i < n
        invariant
            space.bounded(),
            w < space.windows.len(),
            n == space.outputs.len(),
            i <= n,
            global == space.windows@[w as int].spec_global_bbox(),
            global.size.wf(),
            -0x2100_0000 <= global.loc.x <= 0x2100_0000,
            -0x2100_0000 <= global.loc.y <= 0x2100_0000,
            forall|o: int|
                0 <= o < i ==> !(#[trigger] space.outputs@[o].spec_usable()).spec_contains_rect(
                    global,
                ),
        decreases n - i,
    {
        proof {
            assert(space.outputs@[i as int].geom_wf());
        }
        let usable = space.outputs[i].usable();
        if usable.contains_rect(&global) {
            return true;
        }
        i += 1;
    }
    false
}

/// Indices of the windows the re-layout orphans, in index order.
pub open spec fn orphan_indices(mid: Seq<Output>, ws: Seq<Window>, n: int) -> Seq<int>
    decreases n,
{
    if n <= 0 {
        Seq::empty()
    } else {
        let p = orphan_indices(mid, ws, n - 1);
        if !in_any_zone(mid, ws[n - 1]) {
            p.push(n - 1)
        } else {
            p
        }
    }
}

/// Every orphan re-placed in turn: one placement-engine step per orphan, in
/// index order, threading the windows and the layout session through.
pub open spec fn place_orphans(
    mid: Seq<Output>,
    ws: Seq<Window>,
    counter: int,
    memo: Seq<OrdinalSlot>,
    orphans: Seq<int>,
    pointer: Point,
) -> (Seq<Window>, int, Seq<OrdinalSlot>)
    decreases orphans.len(),
{
    if orphans.len() == 0 {
        (ws, counter, memo)
    } else {
        let prev = place_orphans(mid, ws, counter, memo, orphans.drop_last(), pointer);
        place_step(mid, prev.0, prev.1, prev.2, pointer, orphans.last(), false)
    }
}

/// What one topology fixup leaves behind.
pub open spec fn fixup_rel(
    pre_s: Space,
    pre_p: PlacementSession,
    post_s: Space,
    post_p: PlacementSession,
    pointer: Point,
) -> bool {
    let mid = Seq::new(pre_s.outputs@.len(), |i: int| phase1_output(pre_s.outputs@, i));
    &&& post_s.outputs@ == mid
    &&& post_s.windows@.len() == pre_s.windows@.len()
    &&& forall|i: int|
        0 <= i < pre_s.windows@.len() && in_any_zone(mid, #[trigger] pre_s.windows@[i])
            ==> post_s.windows@[i] == pre_s.windows@[i]
    &&& (forall|i: int|
        0 <= i < pre_s.windows@.len() ==> in_any_zone(mid, #[trigger] pre_s.windows@[i]))
        ==> post_s.windows@ == pre_s.windows@ && post_p.counter == pre_p.counter
            && post_p.memo@ == pre_p.memo@
    &&& forall|j: int|
        0 <= j < pre_s.windows@.len() && !in_any_zone(mid, #[trigger] pre_s.windows@[j]) && (
        forall|k: int|
            0 <= k < pre_s.windows@.len() && k != j ==> in_any_zone(
                mid,
                #[trigger] pre_s.windows@[k],
            )) ==> place_rel(
            mid,
            pre_s.windows@,
            pre_p,
            post_s.windows@,
            post_p,
            pointer,
            j,
            false,
        )
    &&& ({
        let placed = place_orphans(
            mid,
            pre_s.windows@,
            pre_p.counter as int,
            pre_p.memo@,
            orphan_indices(mid, pre_s.windows@, pre_s.windows@.len() as int),
            pointer,
        );
        &&& post_s.windows@ == placed.0
        &&& post_p.counter == placed.1
        &&& post_p.memo@ == placed.2
    })
}

/// Re-anchors the topology after outputs come or go: packs the outputs
/// left-to-right from the origin, re-arranges every layer stack, and hands
/// every orphaned window (bounding box no longer wholly inside any usable
/// zone) back to the placement engine without activating it.
pub fn fixup_positions(space: &mut Space, session: &mut PlacementSession, pointer: Point)
    requires
        old(space).bounded(),
        old(session).wf(),
        old(session).counter + old(space).windows.len() <= MAX_WINDOWS,
    ensures
        final(space).bounded(),
        final(session).wf(),
        fixup_rel(*old(space), *old(session), *final(space), *final(session), pointer),
{
    let ghost pre_outputs = space.outputs@;
    let ghost pre_windows = space.windows@;
    let ghost pre_sess = *session;
    let ghost mid = Seq::new(pre_outputs.len(), |i: int| phase1_output(pre_outputs, i));

    let n_out = space.outputs.len();
    let mut offset: i32 = 0;
    let mut i: usize = 0;
    while i < n_out
        invariant
            n_out == space.outputs.len() == pre_outputs.len(),
            n_out <= MAX_OUTPUTS,
            i <= n_out,
            space.windows@ == pre_windows,
            forall|j: int| 0 <= j < pre_windows.len() ==> #[trigger] pre_windows[j].geom_wf(),
            forall|j: int| 0 <= j < n_out ==> #[trigger] pre_outputs[j].geom_wf(),
            forall|j: int| 0 <= j < i ==> #[trigger] space.outputs@[j] == phase1_output(pre_outputs, j),
            forall|j: int| i <= j < n_out ==> #[trigger] space.outputs@[j] == pre_outputs[j],
            offset as int == widths_prefix(pre_outputs, i as int),
            0 <= offset as int <= (i as int) * (COORD_LIMIT as int),
        decreases n_out - i,
    {
        proof {
            assert(pre_outputs[i as int].geom_wf());
            lemma_widths_prefix_bound(pre_outputs, i as int + 1);
            assert((i as int) * (COORD_LIMIT as int) <= 64 * (COORD_LIMIT as int))
                by (nonlinear_arith)
                requires
                    0 <= i <= 64,
            ;
        }
        let mut o = space.outputs.remove(i);
        let size_w = o.geometry.size.w;
        o.geometry = Rect { loc: Point { x: offset, y: 0 }, size: o.geometry.size };
        o.arrange();
        space.outputs.insert(i, o);
        offset = offset + size_w;
        i += 1;
    }
    proof {
        assert(space.outputs@ =~= mid);
        assert forall|j: int| 0 <= j < n_out implies #[trigger] space.outputs@[j].geom_wf() by {
            assert(pre_outputs[j].geom_wf());
            assert(space.outputs@[j] == phase1_output(pre_outputs, j));
            lemma_widths_prefix_bound(pre_outputs, j);
            assert((j as int) * (COORD_LIMIT as int) <= 64 * (COORD_LIMIT as int))
                by (nonlinear_arith)
                requires
                    0 <= j <= 64,
            ;
            lemma_spec_zone_in(pre_outputs[j].geometry.size, pre_outputs[j].layers@);
        }
    }

    let n_win = space.windows.len();
    let mut orphans: Vec<usize> = Vec::new();
    let mut w: usize = 0;
    while w < n_win
        invariant
            space.bounded(),
            space.outputs@ == mid,
            space.windows@ == pre_windows,
            n_win == space.windows.len(),
            w <= n_win,
            orphans@.len() <= w,
            forall|k: int|
                0 <= k < orphans@.len() ==> (#[trigger] orphans@[k]) < w && !in_any_zone(
                    mid,
                    pre_windows[orphans@[k] as int],
                ),
            forall|k1: int, k2: int|
                0 <= k1 < k2 < orphans@.len() ==> #[trigger] orphans@[k1] < #[trigger] orphans@[k2],
            forall|j: int|
                0 <= j < w && !in_any_zone(mid, #[trigger] pre_windows[j]) ==> exists|k: int|
                    0 <= k < orphans@.len() && orphans@[k] == j,
            orphan_indices(mid, pre_windows, w as int).len() == orphans@.len(),
            forall|k: int|
                0 <= k < orphans@.len() ==> orphan_indices(mid, pre_windows, w as int)[k]
                    == #[trigger] orphans@[k] as int,
        decreases n_win - w,
    {
        let ghost pre_orph = orphans@;
        let in_zone = window_in_some_zone(space, w);
        if !in_zone {
            orphans.push(w);
        }
        proof {
            assert forall|j: int|
                0 <= j < w + 1 && !in_any_zone(mid, #[trigger] pre_windows[j]) implies exists|kx: int|
                0 <= kx < orphans@.len() && orphans@[kx] == j by {
                if j == w as int {
                    assert(orphans@[orphans@.len() - 1] == w);
                } else {
                    let kx = choose|kx: int| 0 <= kx < pre_orph.len() && pre_orph[kx] == j;
                    assert(orphans@[kx] == j);
                }
            }
        }
        w += 1;
    }

    proof {
        assert(space.windows@ =~= pre_windows);
    }
    let ghost ospec = orphan_indices(mid, pre_windows, n_win as int);
    let n_orph = orphans.len();
    proof {
        assert(ospec.take(0) =~= Seq::<int>::empty());
    }
    let mut k: usize = 0;
    while k < n_orph
        invariant
            space.bounded(),
            session.wf(),
            space.outputs@ == mid,
            n_orph == orphans.len(),
            k <= n_orph,
            n_win == space.windows.len() == pre_windows.len(),
            session.counter + (n_orph - k) <= MAX_WINDOWS,
            session.counter == pre_sess.counter + k,
            ospec == orphan_indices(mid, pre_windows, n_win as int),
            ospec.len() == n_orph,
            forall|kk: int| 0 <= kk < n_orph ==> ospec[kk] == #[trigger] orphans@[kk] as int,
            ({
                let placed = place_orphans(
                    mid,
                    pre_windows,
                    pre_sess.counter as int,
                    pre_sess.memo@,
                    ospec.take(k as int),
                    pointer,
                );
                &&& space.windows@ == placed.0
                &&& session.counter as int == placed.1
                &&& session.memo@ == placed.2
            }),
            forall|kk: int|
                0 <= kk < n_orph ==> (#[trigger] orphans@[kk]) < n_win && !in_any_zone(
                    mid,
                    pre_windows[orphans@[kk] as int],
                ),
            forall|k1: int, k2: int|
                0 <= k1 < k2 < n_orph ==> #[trigger] orphans@[k1] < #[trigger] orphans@[k2],
            forall|j: int|
                0 <= j < n_win && !in_any_zone(mid, #[trigger] pre_windows[j]) ==> exists|kx: int|
                    0 <= kx < n_orph && orphans@[kx] == j,
            k == 0 ==> space.windows@ == pre_windows && session.counter == pre_sess.counter
                && session.memo@ == pre_sess.memo@,
            forall|j: int|
                0 <= j < n_win && (forall|kk: int| 0 <= kk < k ==> #[trigger] orphans@[kk] != j)
                    ==> #[trigger] space.windows@[j] == pre_windows[j],
            n_orph == 0 ==> space.windows@ == pre_windows && session.counter == pre_sess.counter
                && session.memo@ == pre_sess.memo@,
            (n_orph == 1 && k == 1) ==> place_rel(
                mid,
                pre_windows,
                pre_sess,
                space.windows@,
                *session,
                pointer,
                orphans@[0] as int,
                false,
            ),
        decreases n_orph - k,
    {
        let ghost prev_ws = space.windows@;
        let ghost prev_counter = session.counter;
        let ghost prev_memo = session.memo@;
        let j = orphans[k];
        place_new_window(space, session, pointer, j, false);
        proof {
            assert(ospec.take(k as int + 1).drop_last() =~= ospec.take(k as int));
            assert(ospec.take(k as int + 1).last() == ospec[k as int]);
            assert(ospec[k as int] == j as int);
            let placed_k = place_orphans(
                mid,
                pre_windows,
                pre_sess.counter as int,
                pre_sess.memo@,
                ospec.take(k as int),
                pointer,
            );
            assert(prev_ws == placed_k.0 && prev_counter as int == placed_k.1 && prev_memo
                == placed_k.2);
            assert((space.windows@, session.counter as int, session.memo@) == place_step(
                mid,
                prev_ws,
                prev_counter as int,
                prev_memo,
                pointer,
                j as int,
                false,
            ));
        }
        k += 1;
    }
    proof {
        assert(ospec.take(n_orph as int) =~= ospec);
        assert forall|i2: int|
            0 <= i2 < pre_windows.len() && in_any_zone(mid, #[trigger] pre_windows[i2])
            implies space.windows@[i2] == pre_windows[i2] by {
            assert forall|kk: int| 0 <= kk < n_orph implies #[trigger] orphans@[kk] != i2 by {
                if orphans@[kk] == i2 {
                    assert(!in_any_zone(mid, pre_windows[i2]));
                }
            }
        }
        if forall|i2: int|
            0 <= i2 < pre_windows.len() ==> in_any_zone(mid, #[trigger] pre_windows[i2]) {
            assert(orphans@.len() == 0) by {
                if orphans@.len() > 0 {
                    assert(!in_any_zone(mid, pre_windows[orphans@[0] as int]));
                    assert(in_any_zone(mid, pre_windows[orphans@[0] as int]));
                }
            }
            assert(space.windows@ =~= pre_windows);
        }
        assert forall|j: int|
            0 <= j < pre_windows.len() && !in_any_zone(mid, #[trigger] pre_windows[j]) && (
            forall|k2: int|
                0 <= k2 < pre_windows.len() && k2 != j ==> in_any_zone(
                    mid,
                    #[trigger] pre_windows[k2],
                )) implies place_rel(
            mid,
            pre_windows,
            pre_sess,
            space.windows@,
            *session,
            pointer,
            j,
            false,
        ) by {
            assert(exists|kk: int| 0 <= kk < orphans@.len() && orphans@[kk] == j);
            assert forall|kk: int| 0 <= kk < n_orph implies #[trigger] orphans@[kk] == j by {
                if orphans@[kk] != j {
                    assert(!in_any_zone(mid, pre_windows[orphans@[kk] as int]));
                    assert(in_any_zone(mid, pre_windows[orphans@[kk] as int]));
                }
            }
            let kw = choose|kk: int| 0 <= kk < orphans@.len() && orphans@[kk] == j;
            assert(orphans@[kw] == j);
            assert(n_orph >= 1);
            if n_orph >= 2 {
                assert(orphans@[0] == j && orphans@[1] == j);
                assert(orphans@[0] < orphans@[1]);
                assert(false);
            }
            assert(n_orph == 1);
            assert(orphans@[0] == j);
        }
    }
}


/// The first window is placed at the centre of the usable area, and the
/// centre lies inside it whenever the area is not empty.
pub proof fn lemma_first_window_centered(usable: Rect)
    requires
        usable_wf(usable),
        usable.size.w >= 1,
        usable.size.h >= 1,
    ensures
        spec_slot(1, usable) == (Point {
            x: (spec_center_x(usable)) as i32,
            y: (spec_center_y(usable)) as i32,
        }),
        usable.spec_contains(spec_slot(1, usable)),
{
    lemma_slot_bounded(1, usable);
    let w = usable.size.w as int;
    let h = usable.size.h as int;
    lemma_fundamental_div_mod(w, 2);
    lemma_fundamental_div_mod(h, 2);
}

/// Ordinals 2 through 9 live on ring 1 of the spiral, each in its own of the
/// eight directions, one grid cell away from the centre along each used axis.
pub proof fn lemma_first_ring(n: int, usable: Rect)
    requires
        2 <= n <= 9,
        usable_wf(usable),
        usable.size.w >= 1,
        usable.size.h >= 1,
    ensures
        spec_ring(n) == 1,
        spec_grid(n) >= 3,
        spec_slot(n, usable).x - spec_center_x(usable) == spec_off(
            spec_dir_x(n - 2),
            usable.size.w as int / spec_grid(n),
        ),
        spec_slot(n, usable).y - spec_center_y(usable) == spec_off(
            spec_dir_y(n - 2),
            usable.size.h as int / spec_grid(n),
        ),
        usable.spec_contains(spec_slot(n, usable)),
{
    let w = usable.size.w as int;
    let h = usable.size.h as int;
    let g = spec_grid(n);
    let cw = w / g;
    let ch = h / g;
    lemma_css_props(n, 0);
    assert(3 <= g <= 256);
    assert(spec_ring(n) == 1);
    assert((n - 2) % 8 == n - 2);
    assert(1 * cw == cw) by (nonlinear_arith);
    assert(1 * ch == ch) by (nonlinear_arith);
    lemma_div_pos_is_pos(w, g);
    lemma_div_pos_is_pos(h, g);
    vstd::arithmetic::div_mod::lemma_div_is_ordered_by_denominator(w, 3, g);
    vstd::arithmetic::div_mod::lemma_div_is_ordered_by_denominator(h, 3, g);
    lemma_fundamental_div_mod(w, 2);
    lemma_fundamental_div_mod(w, 3);
    lemma_fundamental_div_mod(h, 2);
    lemma_fundamental_div_mod(h, 3);
    assert(w / 2 + w / 3 < w);
    assert(h / 2 + h / 3 < h);
    assert(w / 3 <= w / 2);
    assert(h / 3 <= h / 2);
    lemma_slot_bounded(n, usable);
}

/// The eight ring-1 ordinals use eight pairwise distinct directions.
pub proof fn lemma_first_ring_distinct(m: int, n: int)
    requires
        2 <= m < n <= 9,
    ensures
        spec_dir_x(m - 2) != spec_dir_x(n - 2) || spec_dir_y(m - 2) != spec_dir_y(n - 2),
{
}

/// Once an ordinal's slot is memoized, every later request for that ordinal
/// returns the very same point, whatever usable area it is asked against.
pub proof fn lemma_slot_memo_deterministic(memo: Seq<OrdinalSlot>, n: int, u1: Rect, u2: Rect)
    requires
        forall|a: int, b: int|
            0 <= a < b < memo.len() ==> #[trigger] memo[a].ordinal != #[trigger] memo[b].ordinal,
        2 <= n <= MAX_WINDOWS,
    ensures
        ({
            let r1 = PlacementSession::spec_slot_result(memo, n, u1);
            let memo1 = if !memo_has(memo, n) {
                memo.push(OrdinalSlot { ordinal: n as usize, pos: r1 })
            } else {
                memo
            };
            PlacementSession::spec_slot_result(memo1, n, u2) == r1
        }),
{
    let r1 = PlacementSession::spec_slot_result(memo, n, u1);
    if memo_has(memo, n) {
    } else {
        let memo1 = memo.push(OrdinalSlot { ordinal: n as usize, pos: r1 });
        assert forall|a: int, b: int|
            0 <= a < b < memo1.len() implies #[trigger] memo1[a].ordinal
            != #[trigger] memo1[b].ordinal by {
            if b == memo.len() {
                assert(memo1[a] == memo[a]);
                if memo1[a].ordinal == n {
                    assert(memo_has(memo, n));
                }
            }
        }
        assert(memo1[memo.len() as int].ordinal == n);
        lemma_memo_pos_unique(memo1, n, memo.len() as int);
    }
}

/// Widths, and so the left-to-right layout, depend only on the output sizes.
pub proof fn lemma_widths_prefix_same(os1: Seq<Output>, os2: Seq<Output>, i: int)
    requires
        i <= os1.len(),
        os1.len() == os2.len(),
        forall|j: int|
            0 <= j < os1.len() ==> (#[trigger] os2[j]).geometry.size == os1[j].geometry.size,
    ensures
        widths_prefix(os1, i) == widths_prefix(os2, i),
    decreases i,
{
    if i > 0 {
        lemma_widths_prefix_same(os1, os2, i - 1);
        if i <= os1.len() {
            assert(os2[i - 1].geometry.size == os1[i - 1].geometry.size);
        }
    }
}

/// The left-to-right re-layout settles after one pass: its outputs are
/// already packed, so running it again moves nothing.
pub proof fn lemma_phase1_idempotent(os: Seq<Output>)
    ensures
        Seq::new(
            Seq::new(os.len(), |i: int| phase1_output(os, i)).len(),
            |i: int| phase1_output(Seq::new(os.len(), |j: int| phase1_output(os, j)), i),
        ) =~= Seq::new(os.len(), |i: int| phase1_output(os, i)),
{
    let mid = Seq::new(os.len(), |i: int| phase1_output(os, i));
    assert forall|j: int| 0 <= j < os.len()
        implies (#[trigger] mid[j]).geometry.size == os[j].geometry.size by {}
    assert forall|i: int| 0 <= i < mid.len() implies #[trigger] phase1_output(mid, i) == mid[
        i
    ] by {
        lemma_widths_prefix_same(os, mid, i);
        assert(mid[i] == phase1_output(os, i));
        assert(mid[i].layers@ == os[i].layers@);
    }
}

/// A topology fixup is idempotent: run again on a topology where every window
/// already sits in some usable zone, it moves neither outputs nor windows and
/// leaves the layout session alone.
pub proof fn lemma_fixup_idempotent(
    s0: Space,
    p0: PlacementSession,
    s1: Space,
    p1: PlacementSession,
    s2: Space,
    p2: PlacementSession,
    pointer: Point,
)
    requires
        fixup_rel(s0, p0, s1, p1, pointer),
        fixup_rel(s1, p1, s2, p2, pointer),
        forall|i: int|
            0 <= i < s1.windows@.len() ==> in_any_zone(s1.outputs@, #[trigger] s1.windows@[i]),
    ensures
        s2.outputs@ == s1.outputs@,
        s2.windows@ == s1.windows@,
        p2.counter == p1.counter,
        p2.memo@ == p1.memo@,
{
    let mid1 = Seq::new(s0.outputs@.len(), |i: int| phase1_output(s0.outputs@, i));
    let mid2 = Seq::new(s1.outputs@.len(), |i: int| phase1_output(s1.outputs@, i));
    assert(s1.outputs@ == mid1);
    lemma_phase1_idempotent(s0.outputs@);
    assert(mid2 =~= s1.outputs@);
    assert forall|i: int| 0 <= i < s1.windows@.len()
        implies in_any_zone(mid2, #[trigger] s1.windows@[i]) by {
        assert(in_any_zone(s1.outputs@, s1.windows@[i]));
    }
    assert(s2.windows@ == s1.windows@);
    assert(s2.outputs@ == mid2);
}

/// A lone orphaned window of a fresh layout session is re-placed inside some
/// usable zone, provided its box fits the targeted usable area and its
/// bounding box starts at its own origin.
pub proof fn lemma_orphan_replaced_in_zone(
    s0: Space,
    p0: PlacementSession,
    s1: Space,
    p1: PlacementSession,
    pointer: Point,
    j: int,
)
    requires
        fixup_rel(s0, p0, s1, p1, pointer),
        0 <= j < s0.windows@.len(),
        !in_any_zone(
            Seq::new(s0.outputs@.len(), |i: int| phase1_output(s0.outputs@, i)),
            s0.windows@[j],
        ),
        forall|k: int|
            0 <= k < s0.windows@.len() && k != j ==> in_any_zone(
                Seq::new(s0.outputs@.len(), |i: int| phase1_output(s0.outputs@, i)),
                #[trigger] s0.windows@[k],
            ),
        p0.counter == 0,
        s0.outputs@.len() > 0,
        s0.windows@[j].bbox.loc == (Point { x: 0, y: 0 }),
        ({
            let mid = Seq::new(s0.outputs@.len(), |i: int| phase1_output(s0.outputs@, i));
            let usable = spec_usable_area(mid, pointer);
            &&& 0 <= s0.windows@[j].bbox.size.w <= usable.size.w
            &&& 0 <= s0.windows@[j].bbox.size.h <= usable.size.h
            &&& usable.size.w >= 1
            &&& usable.size.h >= 1
            &&& usable_wf(usable)
        }),
    ensures
        in_any_zone(s1.outputs@, s1.windows@[j]),
{
    let mid = Seq::new(s0.outputs@.len(), |i: int| phase1_output(s0.outputs@, i));
    let usable = spec_usable_area(mid, pointer);
    assert(place_rel(mid, s0.windows@, p0, s1.windows@, p1, pointer, j, false));
    let pos = PlacementSession::spec_slot_result(p0.memo@, 1, usable);
    assert(pos == spec_slot(1, usable));
    lemma_first_window_centered(usable);
    let sw = s0.windows@[j].bbox.size.w as int;
    let sh = s0.windows@[j].bbox.size.h as int;
    let w = usable.size.w as int;
    let h = usable.size.h as int;
    lemma_slot_bounded(1, usable);
    let win1 = s1.windows@[j];
    assert(win1.location.x as int == pos.x - sw / 2);
    assert(win1.location.y as int == pos.y - sh / 2);
    assert(win1.bbox.loc == s0.windows@[j].bbox.loc);
    vstd::arithmetic::div_mod::lemma_div_is_ordered(sw, w, 2);
    vstd::arithmetic::div_mod::lemma_div_is_ordered(sh, h, 2);
    lemma_div_pos_is_pos(sw, 2);
    lemma_div_pos_is_pos(sh, 2);
    lemma_fundamental_div_mod(w, 2);
    lemma_fundamental_div_mod(h, 2);
    lemma_fundamental_div_mod(sw, 2);
    lemma_fundamental_div_mod(sh, 2);
    assert(usable.spec_contains_rect(win1.spec_global_bbox()));
    if exists|i: int| first_output_under(mid, pointer, i) {
        let o = choose|i: int| first_output_under(mid, pointer, i);
        assert(mid[o].spec_usable() == usable);
        assert(in_any_zone(s1.outputs@, win1));
    } else {
        assert(mid[0].spec_usable() == usable);
        assert(in_any_zone(s1.outputs@, win1));
    }
}

} // verus!

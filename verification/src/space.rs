//! Outputs, layer stacks and mapped windows.
//!
//! The space is the shell's picture of what is on screen: every output with
//! its layer-surface stack and usable zone, and every mapped window with its
//! map location. Lookups are first-match, mirroring how the shell probes its
//! registries.

use vstd::prelude::*;

use crate::geometry::{Point, Rect, Size, COORD_LIMIT, LOC_LIMIT};

verus! {

/// Most outputs a space may hold; keeps the left-to-right re-layout in range.
pub const MAX_OUTPUTS: usize = 64;

/// Side of the output an exclusive layer-surface zone is anchored to.
#[derive(Clone, Copy, Debug, PartialEq, Eq, Structural)]
pub enum Edge {
    Top,
    Bottom,
    Left,
    Right,
}

/// Exclusive part of an output that a layer surface reserves for itself.
#[derive(Clone, Copy, Debug, PartialEq, Eq, Structural)]
pub struct Reservation {
    pub edge: Edge,
    pub thickness: i32,
}

/// Stacking layer a layer surface is bound into.
#[derive(Clone, Copy, Debug, PartialEq, Eq, Structural)]
pub enum LayerKind {
    Background,
    Bottom,
    Top,
    Overlay,
}

/// A layer surface mapped on one output.
#[derive(Clone, Debug)]
pub struct LayerEntry {
    pub surface: usize,
    pub namespace: String,
    pub kind: LayerKind,
    pub exclusive: Option<Reservation>,
    pub configure_sent: bool,
}

/// A physical display region with its layer stack and usable zone.
#[derive(Clone, Debug)]
pub struct Output {
    pub id: u64,
    pub geometry: Rect,
    /// Area not reserved by layer surfaces, relative to the output's origin;
    /// recomputed by `arrange`.
    pub zone: Rect,
    pub layers: Vec<LayerEntry>,
}

/// A mapped top-level window.
#[derive(Clone, Copy, Debug)]
pub struct Window {
    pub id: u64,
    /// Root surface the window wraps.
    pub surface: usize,
    /// Bounding box relative to the window's map location.
    pub bbox: Rect,
    /// Map location, owned by the placement engine and the space.
    pub location: Point,
    /// Size hint handed to the client on first placement.
    pub bounds_hint: Option<Size>,
    pub activated: bool,
}

#[derive(Clone, Debug)]
pub struct Space {
    pub outputs: Vec<Output>,
    pub windows: Vec<Window>,
}

/// Clamps a reservation thickness to what is available.
pub open spec fn clamp_res(t: int, avail: int) -> int {
    if t < 0 {
        0
    } else if t > avail {
        avail
    } else {
        t
    }
}

/// One reservation carved out of a zone.
pub open spec fn spec_shrink(z: Rect, r: Reservation) -> Rect {
    match r.edge {
        Edge::Top => {
            let t = clamp_res(r.thickness as int, z.size.h as int);
            Rect {
                loc: Point { x: z.loc.x, y: (z.loc.y + t) as i32 },
                size: Size { w: z.size.w, h: (z.size.h - t) as i32 },
            }
        },
        Edge::Bottom => {
            let t = clamp_res(r.thickness as int, z.size.h as int);
            Rect { loc: z.loc, size: Size { w: z.size.w, h: (z.size.h - t) as i32 } }
        },
        Edge::Left => {
            let t = clamp_res(r.thickness as int, z.size.w as int);
            Rect {
                loc: Point { x: (z.loc.x + t) as i32, y: z.loc.y },
                size: Size { w: (z.size.w - t) as i32, h: z.size.h },
            }
        },
        Edge::Right => {
            let t = clamp_res(r.thickness as int, z.size.w as int);
            Rect { loc: z.loc, size: Size { w: (z.size.w - t) as i32, h: z.size.h } }
        },
    }
}

/// The usable zone an output of size `size` settles to under `layers`:
/// the full output with every exclusive reservation carved out in stack order.
pub open spec fn spec_zone(size: Size, layers: Seq<LayerEntry>) -> Rect
    decreases layers.len(),
{
    if layers.len() == 0 {
        Rect { loc: Point { x: 0, y: 0 }, size }
    } else {
        let z = spec_zone(size, layers.drop_last());
        match layers.last().exclusive {
            Some(r) => spec_shrink(z, r),
            None => z,
        }
    }
}

/// A zone lies inside the output box it was carved from.
pub open spec fn zone_in(zone: Rect, size: Size) -> bool {
    &&& 0 <= zone.loc.x
    &&& 0 <= zone.loc.y
    &&& 0 <= zone.size.w
    &&& 0 <= zone.size.h
    &&& zone.loc.x + zone.size.w <= size.w
    &&& zone.loc.y + zone.size.h <= size.h
}

pub proof fn lemma_spec_zone_in(size: Size, layers: Seq<LayerEntry>)
    requires
        size.wf(),
    ensures
        zone_in(spec_zone(size, layers), size),
    decreases layers.len(),
{
    if layers.len() > 0 {
        lemma_spec_zone_in(size, layers.drop_last());
    }
}

impl LayerEntry {
    pub open spec fn wf(self, n_surfaces: int) -> bool {
        &&& self.surface < n_surfaces
        &&& match self.exclusive {
            Some(r) => 0 <= r.thickness <= COORD_LIMIT,
            None => true,
        }
    }
}

impl Output {
    /// Output positions stay within the span that `MAX_OUTPUTS` outputs of
    /// maximal width can cover.
    pub open spec fn geom_wf(self) -> bool {
        &&& -0x400_0000 <= self.geometry.loc.x <= 0x400_0000
        &&& -0x400_0000 <= self.geometry.loc.y <= 0x400_0000
        &&& self.geometry.size.wf()
        &&& zone_in(self.zone, self.geometry.size)
    }

    pub open spec fn wf(self, n_surfaces: int) -> bool {
        &&& self.geom_wf()
        &&& forall|i: int| 0 <= i < self.layers.len() ==> #[trigger] self.layers[i].wf(n_surfaces)
    }

    /// A fresh output whose zone is the whole geometry.
    pub fn new(id: u64, geometry: Rect) -> (r: Output)
        ensures
            r.id == id,
            r.geometry == geometry,
            r.zone == (Rect { loc: Point { x: 0, y: 0 }, size: geometry.size }),
            r.layers@.len() == 0,
    {
        Output {
            id,
            geometry,
            zone: Rect { loc: Point { x: 0, y: 0 }, size: geometry.size },
            layers: Vec::new(),
        }
    }

    /// Re-arranges the layer stack: settles the usable zone by carving every
    /// exclusive reservation out of the full output area.
    pub fn arrange(&mut self)
        requires
            old(self).geometry.size.wf(),
        ensures
            *final(self) == (Output { zone: spec_zone(old(self).geometry.size, old(self).layers@), ..*old(self) }),
    {
        let ghost layers = self.layers@;
        let size = self.geometry.size;
        let mut z = Rect { loc: Point { x: 0, y: 0 }, size };
        let n = self.layers.len();
        let mut i: usize = 0;
        while i < n
            invariant
                n == self.layers.len(),
                i <= n,
                self.layers@ == layers,
                size == self.geometry.size,
                size.wf(),
                z == spec_zone(size, layers.subrange(0, i as int)),
                zone_in(z, size),
            decreases n - i,
        {
            proof {
                assert(layers.subrange(0, i as int + 1).drop_last() =~= layers.subrange(
                    0,
                    i as int,
                ));
                assert(layers.subrange(0, i as int + 1).last() == layers[i as int]);
            }
            match self.layers[i].exclusive {
                Some(r) => {
                    match r.edge {
                        Edge::Top => {
                            let t = if r.thickness < 0 {
                                0
                            } else if r.thickness > z.size.h {
                                z.size.h
                            } else {
                                r.thickness
                            };
                            z = Rect {
                                loc: Point { x: z.loc.x, y: z.loc.y + t },
                                size: Size { w: z.size.w, h: z.size.h - t },
                            };
                        },
                        Edge::Bottom => {
                            let t = if r.thickness < 0 {
                                0
                            } else if r.thickness > z.size.h {
                                z.size.h
                            } else {
                                r.thickness
                            };
                            z = Rect { loc: z.loc, size: Size { w: z.size.w, h: z.size.h - t } };
                        },
                        Edge::Left => {
                            let t = if r.thickness < 0 {
                                0
                            } else if r.thickness > z.size.w {
                                z.size.w
                            } else {
                                r.thickness
                            };
                            z = Rect {
                                loc: Point { x: z.loc.x + t, y: z.loc.y },
                                size: Size { w: z.size.w - t, h: z.size.h },
                            };
                        },
                        Edge::Right => {
                            let t = if r.thickness < 0 {
                                0
                            } else if r.thickness > z.size.w {
                                z.size.w
                            } else {
                                r.thickness
                            };
                            z = Rect { loc: z.loc, size: Size { w: z.size.w - t, h: z.size.h } };
                        },
                    }
                },
                None => {},
            }
            i += 1;
        }
        proof {
            assert(layers.subrange(0, n as int) =~= layers);
        }
        self.zone = z;
    }

    /// The usable area in absolute coordinates: output geometry intersected
    /// with the non-exclusive zone.
    pub open spec fn spec_usable(self) -> Rect {
        Rect {
            loc: Point {
                x: (self.geometry.loc.x + self.zone.loc.x) as i32,
                y: (self.geometry.loc.y + self.zone.loc.y) as i32,
            },
            size: self.zone.size,
        }
    }

    pub fn usable(&self) -> (r: Rect)
        requires
            -0x400_0000 <= self.geometry.loc.x <= 0x400_0000,
            -0x400_0000 <= self.geometry.loc.y <= 0x400_0000,
            self.geometry.size.wf(),
            zone_in(self.zone, self.geometry.size),
        ensures
            r == self.spec_usable(),
    {
        Rect {
            loc: Point { x: self.geometry.loc.x + self.zone.loc.x, y: self.geometry.loc.y + self.zone.loc.y },
            size: self.zone.size,
        }
    }
}

impl Window {
    pub open spec fn geom_wf(self) -> bool {
        &&& self.bbox.wf()
        &&& self.location.wf_loc()
        &&& match self.bounds_hint {
            Some(s) => s.wf(),
            None => true,
        }
    }

    pub open spec fn wf(self, n_surfaces: int) -> bool {
        &&& self.surface < n_surfaces
        &&& self.geom_wf()
    }
}

/// First-match predicates: `i` is the first window wrapping surface `s`, and
/// so on. Every registry probe of the shell is a first-match lookup.
pub open spec fn first_window_for_surface(ws: Seq<Window>, s: int, i: int) -> bool {
    &&& 0 <= i < ws.len()
    &&& ws[i].surface == s
    &&& forall|j: int| 0 <= j < i ==> #[trigger] ws[j].surface != s
}

pub open spec fn first_window_with_id(ws: Seq<Window>, id: u64, i: int) -> bool {
    &&& 0 <= i < ws.len()
    &&& ws[i].id == id
    &&& forall|j: int| 0 <= j < i ==> #[trigger] ws[j].id != id
}

pub open spec fn first_output_under(os: Seq<Output>, p: Point, i: int) -> bool {
    &&& 0 <= i < os.len()
    &&& os[i].geometry.spec_contains(p)
    &&& forall|j: int| 0 <= j < i ==> !(#[trigger] os[j].geometry.spec_contains(p))
}

/// `o` is the first output whose geometry overlaps the box `b`.
pub open spec fn first_output_overlapping(os: Seq<Output>, b: Rect, o: int) -> bool {
    &&& 0 <= o < os.len()
    &&& os[o].geometry.spec_overlaps(b)
    &&& forall|j: int| 0 <= j < o ==> !(#[trigger] os[j].geometry.spec_overlaps(b))
}

/// `o` holds a layer entry `e` for surface `s`, and no earlier output does.
pub open spec fn first_output_with_layer(os: Seq<Output>, s: int, o: int, e: int) -> bool {
    &&& 0 <= o < os.len()
    &&& 0 <= e < os[o].layers.len()
    &&& os[o].layers[e].surface == s
    &&& forall|j: int| 0 <= j < e ==> #[trigger] os[o].layers[j].surface != s
    &&& forall|j: int, k: int|
        0 <= j < o && 0 <= k < os[j].layers.len() ==> #[trigger] os[j].layers[k].surface != s
}

pub open spec fn output_has_layer(os: Seq<Output>, s: int, o: int) -> bool {
    exists|e: int| 0 <= e < os[o].layers.len() && #[trigger] os[o].layers[e].surface == s
}

impl Space {
    /// Geometry bounds alone, with no word on surface indices.
    pub open spec fn bounded(self) -> bool {
        &&& self.outputs.len() <= MAX_OUTPUTS
        &&& forall|i: int| 0 <= i < self.outputs.len() ==> #[trigger] self.outputs[i].geom_wf()
        &&& forall|i: int| 0 <= i < self.windows.len() ==> #[trigger] self.windows[i].geom_wf()
    }

    pub open spec fn wf(self, n_surfaces: int) -> bool {
        &&& self.bounded()
        &&& forall|i: int|
            0 <= i < self.outputs.len() ==> #[trigger] self.outputs[i].wf(n_surfaces)
        &&& forall|i: int| 0 <= i < self.windows.len() ==> #[trigger] self.windows[i].wf(n_surfaces)
        &&& forall|i: int, j: int|
            0 <= i < j < self.windows.len() ==> (#[trigger] self.windows[i]).id
                != (#[trigger] self.windows[j]).id
    }

    pub fn new() -> (r: Space)
        ensures
            r.outputs@.len() == 0,
            r.windows@.len() == 0,
    {
        Space { outputs: Vec::new(), windows: Vec::new() }
    }

    /// Index of the first window wrapping surface `s`, if any.
    pub fn window_index_by_surface(&self, s: usize) -> (r: Option<usize>)
        ensures
            match r {
                Some(i) => first_window_for_surface(self.windows@, s as int, i as int),
                None => forall|j: int|
                    0 <= j < self.windows@.len() ==> #[trigger] self.windows@[j].surface != s,
            },
    {
        let n = self.windows.len();
        let mut i: usize = 0;
        while i < n
            invariant
                n == self.windows.len(),
                i <= n,
                forall|j: int| 0 <= j < i ==> #[trigger] self.windows@[j].surface != s,
            decreases n - i,
        {
            if self.windows[i].surface == s {
                return Some(i);
            }
            i += 1;
        }
        None
    }

    /// Index of the first window with identity `id`, if any.
    pub fn window_index_by_id(&self, id: u64) -> (r: Option<usize>)
        ensures
            match r {
                Some(i) => first_window_with_id(self.windows@, id, i as int),
                None => forall|j: int|
                    0 <= j < self.windows@.len() ==> #[trigger] self.windows@[j].id != id,
            },
    {
        let n = self.windows.len();
        let mut i: usize = 0;
        while i < n
            invariant
                n == self.windows.len(),
                i <= n,
                forall|j: int| 0 <= j < i ==> #[trigger] self.windows@[j].id != id,
            decreases n - i,
        {
            if self.windows[i].id == id {
                return Some(i);
            }
            i += 1;
        }
        None
    }

    /// First output whose geometry contains `p`.
    pub fn output_under(&self, p: Point) -> (r: Option<usize>)
        requires
            self.bounded(),
        ensures
            match r {
                Some(i) => first_output_under(self.outputs@, p, i as int),
                None => forall|j: int|
                    0 <= j < self.outputs@.len() ==> !(#[trigger] self.outputs@[j].geometry.spec_contains(
                        p,
                    )),
            },
    {
        let n = self.outputs.len();
        let mut i: usize = 0;
        while i < n
            invariant
                self.bounded(),
                n == self.outputs.len(),
                i <= n,
                forall|j: int|
                    0 <= j < i ==> !(#[trigger] self.outputs@[j].geometry.spec_contains(p)),
            decreases n - i,
        {
            assert(self.outputs@[i as int].geom_wf());
            if self.outputs[i].geometry.contains(p) {
                return Some(i);
            }
            i += 1;
        }
        None
    }

    /// Sets a window's map location; `activate` only ever turns activation on.
    pub fn map_element(&mut self, w: usize, loc: Point, activate: bool)
        requires
            w < old(self).windows.len(),
        ensures
            final(self).windows@ == old(self).windows@.update(
                w as int,
                Window {
                    location: loc,
                    activated: old(self).windows@[w as int].activated || activate,
                    ..old(self).windows@[w as int]
                },
            ),
            final(self).outputs@ == old(self).outputs@,
    {
        let updated = Window {
            location: loc,
            activated: self.windows[w].activated || activate,
            ..self.windows[w]
        };
        self.windows.set(w, updated);
    }

    /// Drops the first window with identity `id`; reports whether one existed.
    pub fn remove_window(&mut self, id: u64) -> (r: bool)
        ensures
            final(self).outputs@ == old(self).outputs@,
            r == exists|i: int|
                0 <= i < old(self).windows@.len() && #[trigger] old(self).windows@[i].id == id,
            r ==> exists|i: int|
                first_window_with_id(old(self).windows@, id, i)
                    && final(self).windows@ == old(self).windows@.remove(i),
            !r ==> final(self).windows@ == old(self).windows@,
    {
        let n = self.windows.len();
        let mut i: usize = 0;
        while i < n
            invariant
                *self == *old(self),
                n == self.windows.len(),
                i <= n,
                forall|j: int| 0 <= j < i ==> #[trigger] self.windows@[j].id != id,
            decreases n - i,
        {
            if self.windows[i].id == id {
                let ghost pre = self.windows@;
                self.windows.remove(i);
                proof {
                    assert(first_window_with_id(pre, id, i as int));
                    assert(pre[i as int].id == id);
                }
                return true;
            }
            i += 1;
        }
        false
    }

    /// First output whose geometry overlaps the window's global bounding box.
    pub fn first_output_for_window(&self, w: usize) -> (r: Option<usize>)
        requires
            self.bounded(),
            w < self.windows.len(),
        ensures
            match r {
                Some(i) => first_output_overlapping(
                    self.outputs@,
                    self.windows@[w as int].spec_global_bbox(),
                    i as int,
                ),
                None => forall|j: int|
                    0 <= j < self.outputs@.len() ==> !(#[trigger] self.outputs@[j].geometry.spec_overlaps(
                        self.windows@[w as int].spec_global_bbox(),
                    )),
            },
    {
        assert(self.windows@[w as int].geom_wf());
        let win = self.windows[w];
        let global = Rect {
            loc: Point { x: win.location.x + win.bbox.loc.x, y: win.location.y + win.bbox.loc.y },
            size: win.bbox.size,
        };
        let n = self.outputs.len();
        let mut i: usize = 0;
        while i < n
            invariant
                self.bounded(),
                n == self.outputs.len(),
                i <= n,
                global == self.windows@[w as int].spec_global_bbox(),
                global.size.wf(),
                -0x2100_0000 <= global.loc.x <= 0x2100_0000,
                -0x2100_0000 <= global.loc.y <= 0x2100_0000,
                forall|j: int|
                    0 <= j < i ==> !(#[trigger] self.outputs@[j].geometry.spec_overlaps(
                        self.windows@[w as int].spec_global_bbox(),
                    )),
            decreases n - i,
        {
            assert(self.outputs@[i as int].geom_wf());
            if self.outputs[i].geometry.overlaps(&global) {
                return Some(i);
            }
            i += 1;
        }
        None
    }

    /// First output holding a layer entry for surface `s`, with the entry's
    /// index in that output's stack.
    pub fn output_with_layer_for(&self, s: usize) -> (r: Option<(usize, usize)>)
        ensures
            match r {
                Some(p) => first_output_with_layer(self.outputs@, s as int, p.0 as int, p.1 as int),
                None => forall|o: int, e: int|
                    0 <= o < self.outputs@.len() && 0 <= e < self.outputs@[o].layers.len()
                        ==> #[trigger] self.outputs@[o].layers[e].surface != s,
            },
    {
        let no = self.outputs.len();
        let mut o: usize = 0;
        while o < no
            invariant
                no == self.outputs.len(),
                o <= no,
                forall|j: int, k: int|
                    0 <= j < o && 0 <= k < self.outputs@[j].layers.len()
                        ==> #[trigger] self.outputs@[j].layers[k].surface != s,
            decreases no - o,
        {
            let ne = self.outputs[o].layers.len();
            let mut e: usize = 0;
            while e < ne
                invariant
                    no == self.outputs.len(),
                    o < no,
                    ne == self.outputs@[o as int].layers.len(),
                    e <= ne,
                    forall|j: int, k: int|
                        0 <= j < o && 0 <= k < self.outputs@[j].layers.len()
                            ==> #[trigger] self.outputs@[j].layers[k].surface != s,
                    forall|k: int| 0 <= k < e ==> #[trigger] self.outputs@[o as int].layers[k].surface != s,
                decreases ne - e,
            {
                if self.outputs[o].layers[e].surface == s {
                    return Some((o, e));
                }
                e += 1;
            }
            o += 1;
        }
        None
    }
}

impl Window {
    /// The window's bounding box in absolute coordinates.
    pub open spec fn spec_global_bbox(self) -> Rect {
        Rect {
            loc: Point {
                x: (self.location.x + self.bbox.loc.x) as i32,
                y: (self.location.y + self.bbox.loc.y) as i32,
            },
            size: self.bbox.size,
        }
    }
}

} // verus!

//! Per-surface auxiliary state and the surface tree.
//!
//! Surfaces are kept in one vector; a surface is named by its index. A parent
//! always has a smaller index than its children, which makes every walk up the
//! tree terminate. Auxiliary state (`SurfaceData`) is attached lazily: the
//! first ensure-configure pass over a surface initializes the whole subtree.

use vstd::prelude::*;

use crate::geometry::{Point, Rect};

verus! {

/// Resize handshake of one surface: either idle, or a configure with the
/// requested size went out and the next commit settles it.
#[derive(Clone, Copy, Debug, PartialEq, Eq, Structural)]
pub enum ResizeState {
    NotResizing,
    WaitingForCommit(crate::geometry::Size),
}

impl ResizeState {
    pub open spec fn spec_default() -> ResizeState {
        ResizeState::NotResizing
    }
}

impl Default for ResizeState {
    fn default() -> (r: Self)
        ensures
            r == ResizeState::spec_default(),
    {
        ResizeState::NotResizing
    }
}

/// Auxiliary state attached to every surface the shell has observed.
#[derive(Clone, Copy, Debug)]
pub struct SurfaceData {
    pub geometry: Option<Rect>,
    pub resize_state: ResizeState,
}

impl SurfaceData {
    pub open spec fn spec_default() -> SurfaceData {
        SurfaceData { geometry: None, resize_state: ResizeState::NotResizing }
    }
}

impl Default for SurfaceData {
    fn default() -> (r: Self)
        ensures
            r == SurfaceData::spec_default(),
    {
        SurfaceData { geometry: None, resize_state: ResizeState::NotResizing }
    }
}

/// One client surface as the shell sees it.
#[derive(Clone, Copy, Debug)]
pub struct Surface {
    /// Parent in the surface tree (subsurface or popup anchor); always a
    /// smaller index than the surface's own.
    pub parent: Option<usize>,
    /// Whether the surface is a synchronized subsurface; commits of such a
    /// surface never reposition the owning window.
    pub sync_subsurface: bool,
    /// Buffer-origin delta accumulated since it was last consumed.
    pub buffer_delta: Option<Point>,
    /// Lazily attached auxiliary state.
    pub data: Option<SurfaceData>,
    /// Whether a toplevel initial configure already went out for this surface.
    pub toplevel_configure_sent: bool,
}

impl Surface {
    pub open spec fn wf(self, idx: int) -> bool {
        &&& match self.parent {
            Some(p) => p < idx,
            None => true,
        }
        &&& match self.buffer_delta {
            Some(d) => d.wf(),
            None => true,
        }
    }

    pub open spec fn spec_new(parent: Option<usize>) -> Surface {
        Surface {
            parent,
            sync_subsurface: false,
            buffer_delta: None,
            data: None,
            toplevel_configure_sent: false,
        }
    }

    /// A fresh surface with no role, no pending delta and no auxiliary state.
    pub fn new(parent: Option<usize>) -> (r: Surface)
        ensures
            r == Surface::spec_new(parent),
    {
        Surface {
            parent,
            sync_subsurface: false,
            buffer_delta: None,
            data: None,
            toplevel_configure_sent: false,
        }
    }
}

pub open spec fn wf_surfaces(ss: Seq<Surface>) -> bool {
    forall|i: int| 0 <= i < ss.len() ==> #[trigger] ss[i].wf(i)
}

/// Root of the surface tree that `s` belongs to.
pub open spec fn spec_root_of(ss: Seq<Surface>, s: int) -> int
    decreases s,
{
    if 0 <= s < ss.len() {
        match ss[s].parent {
            Some(p) => if p < s {
                spec_root_of(ss, p as int)
            } else {
                s
            },
            None => s,
        }
    } else {
        s
    }
}

/// Whether `i` is `root` itself or lies below it in the surface tree.
pub open spec fn is_descendant(ss: Seq<Surface>, i: int, root: int) -> bool
    decreases i,
{
    if i == root {
        true
    } else if 0 <= i < ss.len() {
        match ss[i].parent {
            Some(p) => p < i && is_descendant(ss, p as int, root),
            None => false,
        }
    } else {
        false
    }
}

/// Descendant-hood looks only at the parent links.
pub proof fn lemma_descendant_parents_only(ss1: Seq<Surface>, ss2: Seq<Surface>, i: int, root: int)
    requires
        ss1.len() == ss2.len(),
        forall|j: int| 0 <= j < ss1.len() ==> #[trigger] ss2[j].parent == ss1[j].parent,
    ensures
        is_descendant(ss1, i, root) == is_descendant(ss2, i, root),
    decreases i,
{
    if i != root && 0 <= i < ss1.len() {
        match ss1[i].parent {
            Some(p) => {
                if p < i {
                    lemma_descendant_parents_only(ss1, ss2, p as int, root);
                }
            },
            None => {},
        }
    }
}

/// Walks up the parent chain to the root of `s`'s tree.
pub fn root_of(ss: &Vec<Surface>, s: usize) -> (r: usize)
    requires
        wf_surfaces(ss@),
        s < ss.len(),
    ensures
        r < ss.len(),
        r as int == spec_root_of(ss@, s as int),
{
    let mut cur = s;
    loop
        invariant
            wf_surfaces(ss@),
            cur < ss.len(),
            spec_root_of(ss@, cur as int) == spec_root_of(ss@, s as int),
        decreases cur,
    {
        match ss[cur].parent {
            Some(p) => {
                assert(ss@[cur as int].wf(cur as int));
                cur = p;
            },
            None => {
                return cur;
            },
        }
    }
}

/// Whether surface `i` lies in the subtree rooted at `root`.
pub fn descends_from(ss: &Vec<Surface>, i: usize, root: usize) -> (r: bool)
    requires
        wf_surfaces(ss@),
        i < ss.len(),
        root < ss.len(),
    ensures
        r == is_descendant(ss@, i as int, root as int),
{
    let mut cur = i;
    loop
        invariant
            wf_surfaces(ss@),
            cur < ss.len(),
            is_descendant(ss@, cur as int, root as int) == is_descendant(
                ss@,
                i as int,
                root as int,
            ),
        decreases cur,
    {
        if cur == root {
            return true;
        }
        match ss[cur].parent {
            Some(p) => {
                assert(ss@[cur as int].wf(cur as int));
                cur = p;
            },
            None => {
                return false;
            },
        }
    }
}

/// What one tree-wide initialization pass leaves behind: every surface of
/// `root`'s subtree has auxiliary state, everything else is untouched.
pub open spec fn tree_initialized(pre: Seq<Surface>, post: Seq<Surface>, root: int) -> bool {
    &&& post.len() == pre.len()
    &&& forall|i: int|
        0 <= i < pre.len() ==> #[trigger] post[i] == (Surface {
            data: if is_descendant(pre, i, root) && pre[i].data is None {
                Some(SurfaceData::spec_default())
            } else {
                pre[i].data
            },
            ..pre[i]
        })
}

/// Attaches default auxiliary state to `root` and every descendant that has
/// none yet; a tree-wide one-time initialization.
pub fn init_tree_state(ss: &mut Vec<Surface>, root: usize)
    requires
        wf_surfaces(old(ss)@),
        root < old(ss).len(),
    ensures
        wf_surfaces(final(ss)@),
        tree_initialized(old(ss)@, final(ss)@, root as int),
{
    let ghost pre = ss@;
    let n = ss.len();
    let mut i: usize = 0;
    while i < n
        invariant
            wf_surfaces(ss@),
            wf_surfaces(pre),
            n == ss.len() == pre.len(),
            root < n,
            i <= n,
            forall|j: int| 0 <= j < n ==> #[trigger] ss@[j].parent == pre[j].parent,
            forall|j: int|
                0 <= j < i ==> #[trigger] ss@[j] == (Surface {
                    data: if is_descendant(pre, j, root as int) && pre[j].data is None {
                        Some(SurfaceData::spec_default())
                    } else {
                        pre[j].data
                    },
                    ..pre[j]
                }),
            forall|j: int| i <= j < n ==> #[trigger] ss@[j] == pre[j],
        decreases n - i,
    {
        proof {
            lemma_descendant_parents_only(ss@, pre, i as int, root as int);
        }
        if descends_from(ss, i, root) {
            if ss[i].data.is_none() {
                let updated = Surface { data: Some(SurfaceData::default()), ..ss[i] };
                ss.set(i, updated);
            }
        }
        proof {
            assert forall|j: int| 0 <= j < n implies #[trigger] ss@[j].wf(j) by {
                assert(pre[j].wf(j));
                assert(ss@[j].parent == pre[j].parent);
                assert(ss@[j].buffer_delta == pre[j].buffer_delta);
            }
        }
        i += 1;
    }
}

} // verus!

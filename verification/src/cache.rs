//! The tile store and the per-frame engine: filling the hierarchy from
//! node documents, advancing content through its one-way life cycle, and
//! the traversal that culls, refines and draws.
//!
//! Tiles live in one flat table and refer to each other by index. Every
//! link a tile holds points forward, at a strictly larger index: the
//! hierarchy is a forest by construction, so the traversal cannot meet a
//! tile twice on one path, and a refined tile is provably never drawn in
//! the same frame.

use vstd::prelude::*;
use crate::geom::{Vec3i, bounded};
use crate::volume::{BoundingVolume, vol_bounded, spec_is_visible, GEOM_LIMIT};
use crate::matrix::{Mat4i, mat_bounded, spec_yz_swap_of, final_model_matrix};
use crate::frustum::{Frustum, frustum_bounded, spec_intersects_frustum};
use crate::view_state::{
    ViewState, OrientedBoundingBox, obb_bounded, spec_does_tile_meet_sse, PROJ_LIMIT, VIEW_LIMIT,
};
use crate::tiles::{
    Node, node_bounded, spec_is_glb, uri_is_glb, bytes_eq, bytes_copy, node_glb_uris,
    node_glb_uris_list, node_root_uris, node_root_uris_list, spec_child_indices,
    spec_child_link_uris, lemma_glb_list_decompose, node_glb_info, node_glb_info_list,
    lemma_glb_info_list_decompose,
};
use crate::client::Client;

verus! {

/// The one-way life cycle of a tile's content: nothing yet, a fetch in
/// flight, or decoded meshes on the device, one model matrix each.
#[derive(Debug, PartialEq, Eq)]
pub enum TileContentState {
    NotLoaded,
    Loading,
    Ready(Vec<Mat4i>),
}

/// Where a content state stands in the life cycle.
pub open spec fn content_rank(c: TileContentState) -> int {
    match c {
        TileContentState::NotLoaded => 0,
        TileContentState::Loading => 1,
        TileContentState::Ready(_) => 2,
    }
}

/// The model matrices of ready content; empty before that.
pub open spec fn ready_mats(c: TileContentState) -> Seq<Mat4i> {
    match c {
        TileContentState::Ready(m) => m@,
        _ => Seq::empty(),
    }
}

/// An admissible step of the life cycle: the state never moves backward,
/// and ready content is never replaced.
pub open spec fn content_step(a: TileContentState, b: TileContentState) -> bool {
    content_rank(a) <= content_rank(b) && (content_rank(a) == 2 ==> b == a)
}

/// One tile of the hierarchy.
pub struct Tile {
    /// The content address, the tile's identity.
    pub uri: Vec<u8>,
    /// The bounding volume as loaded.
    pub bv: BoundingVolume,
    /// The same volume in the box form the distance test reads.
    pub bounding: OrientedBoundingBox,
    /// The server-declared error of this level of detail.
    pub geometric_error: i64,
    /// Where the tile's content stands.
    pub content: TileContentState,
    /// The index of the tile this one refines.
    pub parent: Option<usize>,
    /// Indices of mesh children, each strictly greater than this tile's.
    pub children: Vec<usize>,
    /// Addresses of deferred hierarchy links, fetched on first demand.
    pub child_options: Vec<Vec<u8>>,
}

/// A tile whose geometry the predicates can take: volume in range, the box
/// form derived from it, the error in range.
pub open spec fn tile_wf(t: Tile) -> bool {
    vol_bounded(t.bv, GEOM_LIMIT as int) && t.bounding == (OrientedBoundingBox {
        center: t.bv.center,
        ax: t.bv.x_axis,
        ay: t.bv.y_axis,
        az: t.bv.z_axis,
    }) && -GEOM_LIMIT <= t.geometric_error <= GEOM_LIMIT
}

/// Every tile well-formed, and every child link pointing strictly forward.
pub open spec fn tiles_wf(s: Seq<Tile>) -> bool {
    forall|i: int|
        0 <= i < s.len() ==> tile_wf(#[trigger] s[i]) && (forall|k: int|
            0 <= k < s[i].children@.len() ==> i < #[trigger] s[i].children@[k] < s.len())
}

/// The per-frame relation on the table: nothing moves, no tile appears or
/// vanishes, and all geometry and links stay as they are.
pub open spec fn same_frame_geometry(a: Seq<Tile>, b: Seq<Tile>) -> bool {
    a.len() == b.len() && forall|i: int|
        0 <= i < a.len() ==> (#[trigger] b[i]).uri@ == a[i].uri@ && b[i].bv == a[i].bv
            && b[i].bounding == a[i].bounding && b[i].geometric_error == a[i].geometric_error
            && b[i].parent == a[i].parent && b[i].children == a[i].children
}

/// Content only ever advances, position by position.
pub open spec fn tiles_monotone(a: Seq<Tile>, b: Seq<Tile>) -> bool {
    a.len() == b.len() && forall|i: int|
        0 <= i < a.len() ==> content_step(a[i].content, (#[trigger] b[i]).content)
}

/// Deferred links are either untouched or spent; never invented.
pub open spec fn options_shrink(a: Seq<Tile>, b: Seq<Tile>) -> bool {
    a.len() == b.len() && forall|i: int|
        0 <= i < a.len() ==> ((#[trigger] b[i]).child_options == a[i].child_options
            || b[i].child_options@.len() == 0)
}

/// The view bounds every predicate of the traversal needs.
pub open spec fn view_ok(v: ViewState) -> bool {
    mat_bounded(v.projection, PROJ_LIMIT as int) && bounded(v.position, GEOM_LIMIT as int)
        && frustum_bounded(v.frustum, 0x1000_0000_0000_0000) && 0 <= v.viewport_h <= VIEW_LIMIT
}

/// The tile passes both visibility gates: some corner on the camera's
/// hemisphere, and no frustum plane rejecting it.
pub open spec fn tile_visible(t: Tile, v: ViewState) -> bool {
    spec_is_visible(t.bv, v.position) && spec_intersects_frustum(t.bv, v.frustum)
}

/// The tile's refinement decision.
pub open spec fn tile_meets(t: Tile, v: ViewState) -> bool {
    spec_does_tile_meet_sse(v, t.bounding, t.geometric_error)
}

/// A mutable window on one tile of the table.
fn tile_at_mut(tiles: &mut Vec<Tile>, i: usize) -> (t: &mut Tile)
    requires
        i < old(tiles).len(),
    ensures
        *t == old(tiles)@[i as int],
        final(tiles)@ == old(tiles)@.update(i as int, *final(t)),
{
    &mut tiles[i]
}

/// The index of the tile keyed by the address, if one exists.
fn lookup_uri(tiles: &Vec<Tile>, uri: &Vec<u8>) -> (r: Option<usize>)
    ensures
        r is Some ==> r->Some_0 < tiles@.len() && tiles@[r->Some_0 as int].uri@ == uri@,
        r is None ==> forall|i: int| 0 <= i < tiles@.len() ==> (#[trigger] tiles@[i]).uri@ != uri@,
{
    let mut i: usize = 0;
    while i < tiles.len()
        invariant
            i <= tiles@.len(),
            forall|k: int| 0 <= k < i ==> (#[trigger] tiles@[k]).uri@ != uri@,
        decreases tiles@.len() - i,
    {
        if bytes_eq(&tiles[i].uri, uri) {
            return Some(i);
        }
        i = i + 1;
    }
    None
}

/// None of the given addresses keys a tile of the table.
pub open spec fn uris_absent(us: Seq<Seq<u8>>, tiles: Seq<Tile>) -> bool {
    forall|j: int, i: int|
        0 <= j < us.len() && 0 <= i < tiles.len() ==> (#[trigger] tiles[i]).uri@ != #[trigger] us[j]
}

/// The walk meets no address twice: the tree's mesh addresses are new to
/// the table and mutually distinct. The service guarantees address
/// uniqueness; on a repeated address the walk keeps the first tile, skips
/// the repeated subtree, and drops a link that would point backward.
pub open spec fn fill_fresh(n: Node, tiles: Seq<Tile>) -> bool {
    uris_absent(node_glb_uris(n), tiles) && node_glb_uris(n).no_duplicates()
}

/// How many addresses a node contributes for itself.
pub open spec fn own_glb_len(n: Node) -> int {
    match n.content {
        Option::Some(c) => if spec_is_glb(c.uri@) {
            1int
        } else {
            0int
        },
        Option::None => 0int,
    }
}

/// While a fresh walk stands mid-way through a node's children, the
/// subtree of the next child is itself fresh against the grown table.
proof fn lemma_subtree_fresh(n: Node, k: int, old_tiles: Seq<Tile>, cur: Seq<Tile>)
    requires
        fill_fresh(n, old_tiles),
        0 <= k < n.children@.len(),
        cur.len() == old_tiles.len() + own_glb_len(n) + node_glb_uris_list(
            n.children@.subrange(0, k),
        ).len(),
        forall|i: int| 0 <= i < old_tiles.len() ==> #[trigger] cur[i] == old_tiles[i],
        forall|i: int|
            old_tiles.len() <= i < cur.len() ==> (#[trigger] cur[i]).uri@ == node_glb_uris(n)[
                i - old_tiles.len()
            ],
    ensures
        fill_fresh(n.children@[k], cur),
{
    let whole = node_glb_uris(n);
    let child = n.children@[k];
    let pre = node_glb_uris_list(n.children@.subrange(0, k));
    lemma_glb_list_decompose(n.children@, k);
    let off = own_glb_len(n) + pre.len();
    assert(whole == (match n.content {
        Option::Some(c) => if spec_is_glb(c.uri@) {
            seq![c.uri@]
        } else {
            Seq::<Seq<u8>>::empty()
        },
        Option::None => Seq::<Seq<u8>>::empty(),
    }) + (pre + node_glb_uris(child) + node_glb_uris_list(
        n.children@.subrange(k + 1, n.children@.len() as int),
    )));
    assert(off + node_glb_uris(child).len() <= whole.len());
    assert forall|p: int|
        0 <= p < node_glb_uris(child).len() implies whole[off + p] == node_glb_uris(child)[p] by {
    }
    assert(node_glb_uris(child).no_duplicates()) by {
        assert forall|p: int, q: int|
            0 <= p < node_glb_uris(child).len() && 0 <= q < node_glb_uris(child).len() && p
                != q implies node_glb_uris(child)[p] != node_glb_uris(child)[q] by {
            assert(whole[off + p] != whole[off + q]);
        }
    }
    assert forall|j: int, i: int|
        0 <= j < node_glb_uris(child).len() && 0 <= i < cur.len() implies (#[trigger] cur[i]).uri@
        != #[trigger] node_glb_uris(child)[j] by {
        if i < old_tiles.len() {
            assert(cur[i].uri@ == old_tiles[i].uri@);
            assert(old_tiles[i].uri@ != whole[off + j]);
        } else {
            assert(cur[i].uri@ == whole[i - old_tiles.len()]);
            assert(i - old_tiles.len() < off);
            assert(whole[i - old_tiles.len()] != whole[off + j]);
        }
    }
}

/// What a node hands back to the tile that refines it: a stored mesh tile,
/// or the address of a deferred hierarchy link.
pub enum ChildRef {
    Tile(usize),
    Link(Vec<u8>),
}

impl Tile {
    /// True when decoded content is on the device.
    pub fn has_ready_content(&self) -> (r: bool)
        ensures
            r == (content_rank(self.content) == 2),
    {
        match &self.content {
            TileContentState::Ready(_) => true,
            _ => false,
        }
    }

    /// A fresh tile for a node whose content address names a mesh payload;
    /// nothing for any other node.
    pub fn from_node(n: &Node, parent: Option<usize>) -> (r: Option<Tile>)
        requires
            node_bounded(*n),
        ensures
            r is Some <==> (n.content is Some && spec_is_glb(n.content->Some_0.uri@)),
            r is Some ==> {
                let t = r->Some_0;
                &&& t.uri@ == n.content->Some_0.uri@
                &&& t.bv == n.bounding
                &&& t.geometric_error == n.err
                &&& content_rank(t.content) == 0
                &&& t.parent == parent
                &&& t.children@.len() == 0
                &&& t.child_options@.len() == 0
                &&& tile_wf(t)
            },
    {
        match &n.content {
            Option::Some(content) => {
                if uri_is_glb(&content.uri) {
                    Some(
                        Tile {
                            uri: bytes_copy(&content.uri),
                            bv: n.bounding,
                            bounding: OrientedBoundingBox {
                                center: n.bounding.center,
                                ax: n.bounding.x_axis,
                                ay: n.bounding.y_axis,
                                az: n.bounding.z_axis,
                            },
                            geometric_error: n.err,
                            content: TileContentState::NotLoaded,
                            parent,
                            children: Vec::new(),
                            child_options: Vec::new(),
                        },
                    )
                } else {
                    None
                }
            },
            Option::None => None,
        }
    }

    /// Walks a node document into the table. A node with a mesh address
    /// becomes a tile; its children's tiles are linked under it, and their
    /// deferred links kept beside it. A node without one is flattened: its
    /// children are walked in its place, becoming roots where it would
    /// have. Existing addresses are kept as they are; the table only grows.
    pub fn fill(
        tiles: &mut Vec<Tile>,
        n: &Node,
        parent: Option<usize>,
        roots_acc: &mut Vec<usize>,
        is_root: bool,
    ) -> (r: Option<ChildRef>)
        requires
            node_bounded(*n),
            tiles_wf(old(tiles)@),
        ensures
            tiles_wf(final(tiles)@),
            old(tiles)@.len() <= final(tiles)@.len(),
            forall|i: int| 0 <= i < old(tiles)@.len() ==> final(tiles)@[i] == old(tiles)@[i],
            forall|i: int|
                old(tiles)@.len() <= i < final(tiles)@.len() ==> content_rank(
                    (#[trigger] final(tiles)@[i]).content,
                ) == 0,
            old(roots_acc)@.len() <= final(roots_acc)@.len(),
            forall|j: int|
                0 <= j < old(roots_acc)@.len() ==> #[trigger] final(roots_acc)@[j] == old(
                    roots_acc,
                )@[j],
            forall|j: int|
                old(roots_acc)@.len() <= j < final(roots_acc)@.len() ==> old(tiles)@.len() <= (
                #[trigger] final(roots_acc)@[j]) < final(tiles)@.len(),
            !is_root ==> final(roots_acc)@ == old(roots_acc)@,
            r is Some && r->Some_0 is Tile ==> {
                let idx = r->Some_0->Tile_0;
                &&& idx < final(tiles)@.len()
                &&& n.content is Some
                &&& spec_is_glb(n.content->Some_0.uri@)
                &&& final(tiles)@[idx as int].uri@ == n.content->Some_0.uri@
            },
            r is Some && r->Some_0 is Link ==> n.content is Some && r->Some_0->Link_0@
                == n.content->Some_0.uri@ && !spec_is_glb(n.content->Some_0.uri@),
            n.content is None <==> r is None,
            fill_fresh(*n, old(tiles)@) ==> {
                &&& final(tiles)@.len() == old(tiles)@.len() + node_glb_uris(*n).len()
                &&& final(tiles)@.len() == old(tiles)@.len() + node_glb_info(*n).len()
                &&& forall|i: int|
                    old(tiles)@.len() <= i < final(tiles)@.len() ==> (
                    #[trigger] final(tiles)@[i]).uri@ == node_glb_uris(*n)[i - old(tiles)@.len()]
                &&& forall|i: int|
                    old(tiles)@.len() <= i < final(tiles)@.len() ==> (
                    #[trigger] final(tiles)@[i]).bv == node_glb_info(*n)[i - old(tiles)@.len()].0
                        && final(tiles)@[i].geometric_error == node_glb_info(*n)[
                        i - old(tiles)@.len()
                    ].1
            },
            fill_fresh(*n, old(tiles)@) && is_root ==> {
                &&& final(roots_acc)@.len() == old(roots_acc)@.len() + node_root_uris(*n).len()
                &&& forall|j: int|
                    0 <= j < node_root_uris(*n).len() ==> final(tiles)@[(
                    #[trigger] final(roots_acc)@[old(roots_acc)@.len() + j]) as int].uri@
                        == node_root_uris(*n)[j]
            },
            fill_fresh(*n, old(tiles)@) && n.content is Some && spec_is_glb(
                n.content->Some_0.uri@,
            ) ==> {
                let idx = old(tiles)@.len() as int;
                &&& r is Some
                &&& r->Some_0 is Tile
                &&& r->Some_0->Tile_0 == old(tiles)@.len()
                &&& final(tiles)@[idx].children@.map_values(|x: usize| x as int)
                    == spec_child_indices(n.children@, idx + 1)
                &&& final(tiles)@[idx].child_options@.map_values(|u: Vec<u8>| u@)
                    == spec_child_link_uris(n.children@)
                &&& final(tiles)@[idx].parent == parent
                &&& final(tiles)@[idx].bv == n.bounding
                &&& final(tiles)@[idx].geometric_error == n.err
            },
        decreases *n,
    {
        let created = Tile::from_node(n, parent);
        match created {
            Option::Some(tile) => {
                match lookup_uri(tiles, &tile.uri) {
                    Option::Some(existing) => {
                        proof {
                            if fill_fresh(*n, old(tiles)@) {
                                assert(node_glb_uris(*n)[0] == n.content->Some_0.uri@);
                                assert(tiles@[existing as int].uri@ != node_glb_uris(*n)[0]);
                                assert(false);
                            }
                        }
                        return Some(ChildRef::Tile(existing));
                    },
                    Option::None => {},
                }
                tiles.push(tile);
                let idx = tiles.len() - 1;
                let mut kids: Vec<usize> = Vec::new();
                let mut options: Vec<Vec<u8>> = Vec::new();
                let mut k: usize = 0;
                proof {
                    if fill_fresh(*n, old(tiles)@) {
                        assert(node_glb_uris(*n)[0] == n.content->Some_0.uri@);
                        assert(n.children@.subrange(0, 0) =~= Seq::<Node>::empty());
                        assert(kids@.map_values(|x: usize| x as int) =~= spec_child_indices(
                            n.children@.subrange(0, 0),
                            idx + 1,
                        ));
                        assert(options@.map_values(|u: Vec<u8>| u@) =~= spec_child_link_uris(
                            n.children@.subrange(0, 0),
                        ));
                    }
                }
                while k < n.children.len()
                    invariant
                        node_bounded(*n),
                        k <= n.children@.len(),
                        tiles_wf(tiles@),
                        idx < tiles@.len(),
                        old(tiles)@.len() == idx,
                        forall|i: int| 0 <= i < old(tiles)@.len() ==> tiles@[i] == old(tiles)@[i],
                        tiles@[idx as int].children@.len() == 0,
                        n.content is Some,
                        spec_is_glb(n.content->Some_0.uri@),
                        own_glb_len(*n) == 1,
                        tiles@[idx as int].uri@ == n.content->Some_0.uri@,
                        tiles@[idx as int].child_options@.len() == 0,
                        tiles@[idx as int].parent == parent,
                        tiles@[idx as int].bv == n.bounding,
                        tiles@[idx as int].geometric_error == n.err,
                        forall|i: int|
                            old(tiles)@.len() <= i < tiles@.len() ==> content_rank(
                                (#[trigger] tiles@[i]).content,
                            ) == 0,
                        forall|j: int|
                            0 <= j < kids@.len() ==> idx < #[trigger] kids@[j] < tiles@.len(),
                        roots_acc@ == old(roots_acc)@,
                        fill_fresh(*n, old(tiles)@) ==> {
                            &&& tiles@.len() == old(tiles)@.len() + 1 + node_glb_uris_list(
                                n.children@.subrange(0, k as int),
                            ).len()
                            &&& tiles@.len() == old(tiles)@.len() + 1 + node_glb_info_list(
                                n.children@.subrange(0, k as int),
                            ).len()
                            &&& forall|i: int|
                                old(tiles)@.len() <= i < tiles@.len() ==> (
                                #[trigger] tiles@[i]).uri@ == node_glb_uris(*n)[
                                    i - old(tiles)@.len()
                                ]
                            &&& forall|i: int|
                                old(tiles)@.len() <= i < tiles@.len() ==> (
                                #[trigger] tiles@[i]).bv == node_glb_info(*n)[
                                    i - old(tiles)@.len()
                                ].0 && tiles@[i].geometric_error == node_glb_info(*n)[
                                    i - old(tiles)@.len()
                                ].1
                            &&& kids@.map_values(|x: usize| x as int) == spec_child_indices(
                                n.children@.subrange(0, k as int),
                                idx + 1,
                            )
                            &&& options@.map_values(|u: Vec<u8>| u@) == spec_child_link_uris(
                                n.children@.subrange(0, k as int),
                            )
                        },
                    decreases n.children@.len() - k,
                {
                    proof {
                        if fill_fresh(*n, old(tiles)@) {
                            lemma_subtree_fresh(*n, k as int, old(tiles)@, tiles@);
                        }
                    }
                    let ghost pre_tiles = tiles@;
                    let ghost pre_kids_map = kids@.map_values(|x: usize| x as int);
                    let ghost pre_opts_map = options@.map_values(|u: Vec<u8>| u@);
                    let outcome = Tile::fill(tiles, &n.children[k], Some(idx), roots_acc, false);
                    proof {
                        if fill_fresh(*n, old(tiles)@) {
                            lemma_glb_list_decompose(n.children@, k as int);
                            lemma_glb_info_list_decompose(n.children@, k as int);
                            assert(n.children@.subrange(0, k + 1).drop_last()
                                =~= n.children@.subrange(0, k as int));
                            assert(n.children@.subrange(0, k + 1).last() == n.children@[k as int]);
                            let child = n.children@[k as int];
                            let prelen = node_glb_uris_list(
                                n.children@.subrange(0, k as int),
                            ).len();
                            assert forall|p: int|
                                0 <= p < node_glb_uris(child).len() implies node_glb_uris(*n)[
                                1 + prelen + p
                            ] == node_glb_uris(child)[p] by {}
                            let prelen2 = node_glb_info_list(
                                n.children@.subrange(0, k as int),
                            ).len();
                            assert forall|p: int|
                                0 <= p < node_glb_info(child).len() implies node_glb_info(*n)[
                                1 + prelen2 + p
                            ] == node_glb_info(child)[p] by {}
                        }
                    }
                    match outcome {
                        Option::Some(ChildRef::Tile(c)) => {
                            if c > idx {
                                kids.push(c);
                            }
                            proof {
                                if fill_fresh(*n, old(tiles)@) {
                                    assert(c == pre_tiles.len());
                                    assert(kids@.map_values(|x: usize| x as int)
                                        =~= pre_kids_map.push(c as int));
                                    assert(spec_child_indices(
                                        n.children@.subrange(0, k + 1),
                                        idx + 1,
                                    ) =~= kids@.map_values(|x: usize| x as int));
                                    assert(spec_child_link_uris(n.children@.subrange(0, k + 1))
                                        =~= pre_opts_map);
                                }
                            }
                        },
                        Option::Some(ChildRef::Link(u)) => {
                            options.push(u);
                            proof {
                                if fill_fresh(*n, old(tiles)@) {
                                    assert(options@.map_values(|u2: Vec<u8>| u2@)
                                        =~= pre_opts_map.push(u@));
                                    assert(spec_child_link_uris(n.children@.subrange(0, k + 1))
                                        =~= options@.map_values(|u2: Vec<u8>| u2@));
                                    assert(spec_child_indices(
                                        n.children@.subrange(0, k + 1),
                                        idx + 1,
                                    ) =~= pre_kids_map);
                                }
                            }
                        },
                        Option::None => {
                            proof {
                                if fill_fresh(*n, old(tiles)@) {
                                    assert(spec_child_indices(
                                        n.children@.subrange(0, k + 1),
                                        idx + 1,
                                    ) =~= pre_kids_map);
                                    assert(spec_child_link_uris(n.children@.subrange(0, k + 1))
                                        =~= pre_opts_map);
                                }
                            }
                        },
                    }
                    k = k + 1;
                }
                proof {
                    assert(n.children@.subrange(0, n.children@.len() as int) =~= n.children@);
                }
                let t = tile_at_mut(tiles, idx);
                t.children = kids;
                t.child_options = options;
                if is_root {
                    roots_acc.push(idx);
                }
                proof {
                    if fill_fresh(*n, old(tiles)@) {
                        assert(node_glb_uris(*n).len() == 1 + node_glb_uris_list(
                            n.children@,
                        ).len());
                        assert(node_glb_info(*n).len() == 1 + node_glb_info_list(
                            n.children@,
                        ).len());
                        if is_root {
                            assert(node_root_uris(*n) =~= seq![n.content->Some_0.uri@]);
                        }
                    }
                }
                Some(ChildRef::Tile(idx))
            },
            Option::None => {
                let mut k: usize = 0;
                proof {
                    if fill_fresh(*n, old(tiles)@) {
                        assert(n.children@.subrange(0, 0) =~= Seq::<Node>::empty());
                    }
                }
                while k < n.children.len()
                    invariant
                        node_bounded(*n),
                        k <= n.children@.len(),
                        tiles_wf(tiles@),
                        old(tiles)@.len() <= tiles@.len(),
                        !(n.content is Some && spec_is_glb(n.content->Some_0.uri@)),
                        own_glb_len(*n) == 0,
                        forall|i: int| 0 <= i < old(tiles)@.len() ==> tiles@[i] == old(tiles)@[i],
                        forall|i: int|
                            old(tiles)@.len() <= i < tiles@.len() ==> content_rank(
                                (#[trigger] tiles@[i]).content,
                            ) == 0,
                        old(roots_acc)@.len() <= roots_acc@.len(),
                        forall|j: int|
                            0 <= j < old(roots_acc)@.len() ==> #[trigger] roots_acc@[j] == old(
                                roots_acc,
                            )@[j],
                        forall|j: int|
                            old(roots_acc)@.len() <= j < roots_acc@.len() ==> old(tiles)@.len() <= (
                            #[trigger] roots_acc@[j]) < tiles@.len(),
                        !is_root ==> roots_acc@ == old(roots_acc)@,
                        fill_fresh(*n, old(tiles)@) ==> {
                            &&& tiles@.len() == old(tiles)@.len() + node_glb_uris_list(
                                n.children@.subrange(0, k as int),
                            ).len()
                            &&& tiles@.len() == old(tiles)@.len() + node_glb_info_list(
                                n.children@.subrange(0, k as int),
                            ).len()
                            &&& forall|i: int|
                                old(tiles)@.len() <= i < tiles@.len() ==> (
                                #[trigger] tiles@[i]).uri@ == node_glb_uris(*n)[
                                    i - old(tiles)@.len()
                                ]
                            &&& forall|i: int|
                                old(tiles)@.len() <= i < tiles@.len() ==> (
                                #[trigger] tiles@[i]).bv == node_glb_info(*n)[
                                    i - old(tiles)@.len()
                                ].0 && tiles@[i].geometric_error == node_glb_info(*n)[
                                    i - old(tiles)@.len()
                                ].1
                        },
                        fill_fresh(*n, old(tiles)@) && is_root ==> {
                            &&& roots_acc@.len() == old(roots_acc)@.len() + node_root_uris_list(
                                n.children@.subrange(0, k as int),
                            ).len()
                            &&& forall|j: int|
                                0 <= j < node_root_uris_list(
                                    n.children@.subrange(0, k as int),
                                ).len() ==> tiles@[(#[trigger] roots_acc@[
                                    old(roots_acc)@.len() + j
                                ]) as int].uri@ == node_root_uris_list(
                                    n.children@.subrange(0, k as int),
                                )[j]
                        },
                    decreases n.children@.len() - k,
                {
                    proof {
                        if fill_fresh(*n, old(tiles)@) {
                            lemma_subtree_fresh(*n, k as int, old(tiles)@, tiles@);
                        }
                    }
                    let ghost pre_tiles = tiles@;
                    let ghost pre_roots = roots_acc@;
                    let _ = Tile::fill(tiles, &n.children[k], Option::None, roots_acc, is_root);
                    proof {
                        if fill_fresh(*n, old(tiles)@) {
                            lemma_glb_list_decompose(n.children@, k as int);
                            lemma_glb_info_list_decompose(n.children@, k as int);
                            assert(n.children@.subrange(0, k + 1).drop_last()
                                =~= n.children@.subrange(0, k as int));
                            assert(n.children@.subrange(0, k + 1).last() == n.children@[k as int]);
                            let child = n.children@[k as int];
                            let prelen = node_glb_uris_list(
                                n.children@.subrange(0, k as int),
                            ).len();
                            assert forall|p: int|
                                0 <= p < node_glb_uris(child).len() implies node_glb_uris(*n)[
                                prelen + p
                            ] == node_glb_uris(child)[p] by {}
                            let prelen2 = node_glb_info_list(
                                n.children@.subrange(0, k as int),
                            ).len();
                            assert forall|p: int|
                                0 <= p < node_glb_info(child).len() implies node_glb_info(*n)[
                                prelen2 + p
                            ] == node_glb_info(child)[p] by {}
                            if is_root {
                                let base = old(roots_acc)@.len() as int;
                                let prev = node_root_uris_list(n.children@.subrange(0, k as int));
                                let cur = node_root_uris_list(n.children@.subrange(0, k + 1));
                                assert(cur == prev + node_root_uris(child));
                                assert forall|j: int|
                                    0 <= j < cur.len() implies tiles@[(#[trigger] roots_acc@[
                                    base + j
                                ]) as int].uri@ == cur[j] by {
                                    if j < prev.len() {
                                        assert(roots_acc@[base + j] == pre_roots[base + j]);
                                        assert((pre_roots[base + j] as int) < pre_tiles.len());
                                        assert(tiles@[pre_roots[base + j] as int] == pre_tiles[
                                            pre_roots[base + j] as int
                                        ]);
                                    } else {
                                        assert(cur[j] == node_root_uris(child)[j - prev.len()]);
                                        assert(roots_acc@[base + j] == roots_acc@[
                                            pre_roots.len() + (j - prev.len())
                                        ]);
                                    }
                                }
                            }
                        }
                    }
                    k = k + 1;
                }
                proof {
                    assert(n.children@.subrange(0, n.children@.len() as int) =~= n.children@);
                    if fill_fresh(*n, old(tiles)@) {
                        assert(node_glb_uris(*n) =~= node_glb_uris_list(n.children@));
                        assert(node_glb_info(*n) =~= node_glb_info_list(n.children@));
                        assert(node_root_uris(*n) == node_root_uris_list(n.children@));
                    }
                }
                match &n.content {
                    Option::Some(content) => Some(ChildRef::Link(bytes_copy(&content.uri))),
                    Option::None => None,
                }
            },
        }
    }
}

/// One command of a frame: draw one decoded mesh of a tile, draw a tile's
/// box outline, start a content fetch, or fetch a deferred hierarchy link
/// on behalf of a waiting parent.
#[derive(Debug, PartialEq, Eq)]
pub enum Action {
    DrawMesh { tile: usize, content: usize },
    DrawBox { tile: usize },
    FetchContent { tile: usize },
    FetchNode { uri: Vec<u8>, parent: usize },
}

/// The tile a draw command touches; nothing for a fetch.
pub open spec fn action_draw_tile(a: Action) -> Option<int> {
    match a {
        Action::DrawMesh { tile, content } => Some(tile as int),
        Action::DrawBox { tile } => Some(tile as int),
        Action::FetchContent { tile } => Option::None,
        Action::FetchNode { uri, parent } => Option::None,
    }
}

/// A command sound for the frame's state and view: draws touch stored,
/// visible tiles; a content fetch starts on a tile with nothing yet; a
/// link fetch carries an address its parent actually deferred.
pub open spec fn action_ok(a: Action, s0: Seq<Tile>, v: ViewState) -> bool {
    match a {
        Action::DrawMesh { tile, content } => tile < s0.len() && tile_visible(s0[tile as int], v),
        Action::DrawBox { tile } => tile < s0.len() && tile_visible(s0[tile as int], v),
        Action::FetchContent { tile } => tile < s0.len() && content_rank(s0[tile as int].content)
            == 0,
        Action::FetchNode { uri, parent } => parent < s0.len() && exists|k: int|
            0 <= k < s0[parent as int].child_options@.len() && (#[trigger] s0[
                parent as int
            ].child_options@[k]) == uri,
    }
}

/// The commands one visible leaf visit emits, in order: its content fetch
/// if nothing is loaded yet, one link fetch per deferred child when the
/// error budget demands refinement, one draw per decoded mesh, and its box
/// outline when asked for.
pub open spec fn spec_leaf_actions(
    t: Tile,
    id: usize,
    meets: bool,
    max_level: int,
    show: bool,
) -> Seq<Action> {
    let fetch: Seq<Action> = if content_rank(t.content) == 0 {
        seq![Action::FetchContent { tile: id }]
    } else {
        Seq::empty()
    };
    let nodes: Seq<Action> = if !meets && t.child_options@.len() > 0 && max_level > 0 {
        Seq::new(
            t.child_options@.len(),
            |k: int| Action::FetchNode { uri: t.child_options@[k], parent: id },
        )
    } else {
        Seq::empty()
    };
    let draws: Seq<Action> = match t.content {
        TileContentState::Ready(m) => Seq::new(
            m@.len(),
            |j: int| Action::DrawMesh { tile: id, content: j as usize },
        ),
        _ => Seq::empty(),
    };
    let bbox: Seq<Action> = if show {
        seq![Action::DrawBox { tile: id }]
    } else {
        Seq::empty()
    };
    fetch + nodes + draws + bbox
}

/// Content during one frame: each tile's content is either exactly kept
/// or stepped from nothing-yet to a fetch in flight; never anything else.
pub open spec fn tiles_render_step(a: Seq<Tile>, b: Seq<Tile>) -> bool {
    a.len() == b.len() && forall|i: int|
        0 <= i < a.len() ==> ((#[trigger] b[i]).content == a[i].content || (content_rank(
            a[i].content,
        ) == 0 && b[i].content is Loading))
}

/// One frame's content steps compose.
proof fn lemma_render_step_trans(a: Seq<Tile>, b: Seq<Tile>, c: Seq<Tile>)
    requires
        tiles_render_step(a, b),
        tiles_render_step(b, c),
    ensures
        tiles_render_step(a, c),
{
    assert forall|i: int|
        0 <= i < a.len() implies ((#[trigger] c[i]).content == a[i].content || (content_rank(
        a[i].content,
    ) == 0 && c[i].content is Loading)) by {
        if b[i].content == a[i].content {
        } else {
            assert(content_rank(a[i].content) == 0 && b[i].content is Loading);
            if c[i].content == b[i].content {
            } else {
                assert(content_rank(b[i].content) == 0);
                assert(false);
            }
        }
    }
}

/// The whole per-frame traversal of one tile, as a relation from the state
/// and output accumulators before the visit to those after it. An unknown
/// index and an invisible tile leave everything as it is; a refined tile
/// chains the visits of its children at one less depth; any other visible
/// tile is a leaf: its commands are appended exactly, the leaf counter
/// steps once (saturating), and only its own content and spent links
/// change.
pub open spec fn spec_traverse(
    t0: Seq<Tile>,
    c0: int,
    a0: Seq<Action>,
    id: usize,
    v: ViewState,
    lvl: int,
    show: bool,
    t1: Seq<Tile>,
    c1: int,
    a1: Seq<Action>,
) -> bool
    decreases lvl, 0int, 0int,
{
    if !(id < t0.len()) {
        t1 == t0 && c1 == c0 && a1 == a0
    } else if !tile_visible(t0[id as int], v) {
        t1 == t0 && c1 == c0 && a1 == a0
    } else if t0[id as int].children@.len() > 0 && !tile_meets(t0[id as int], v) && lvl > 0 {
        spec_traverse_kids(t0, c0, a0, t0[id as int].children@, v, lvl - 1, show, t1, c1, a1)
    } else {
        let t = t0[id as int];
        let meets = tile_meets(t, v);
        &&& a1 == a0 + spec_leaf_actions(t, id, meets, lvl, show)
        &&& c1 == (if c0 < usize::MAX as int {
            c0 + 1
        } else {
            c0
        })
        &&& t1.len() == t0.len()
        &&& (forall|i: int| 0 <= i < t0.len() && i != id ==> #[trigger] t1[i] == t0[i])
        &&& t1[id as int].uri == t.uri
        &&& t1[id as int].bv == t.bv
        &&& t1[id as int].bounding == t.bounding
        &&& t1[id as int].geometric_error == t.geometric_error
        &&& t1[id as int].parent == t.parent
        &&& t1[id as int].children == t.children
        &&& t1[id as int].content == (if content_rank(t.content) == 0 {
            TileContentState::Loading
        } else {
            t.content
        })
        &&& (if !meets && t.child_options@.len() > 0 && lvl > 0 {
            t1[id as int].child_options@.len() == 0
        } else {
            t1[id as int].child_options == t.child_options
        })
    }
}

/// A trigger anchor naming the intermediate state a visit chain threads
/// through; always true.
pub open spec fn chain_link(tm: Seq<Tile>, cm: int, am: Seq<Action>) -> bool {
    true
}

/// The visits of a list of tiles in order, each threading the state and
/// accumulators of the one before.
pub open spec fn spec_traverse_kids(
    t0: Seq<Tile>,
    c0: int,
    a0: Seq<Action>,
    kids: Seq<usize>,
    v: ViewState,
    lvl: int,
    show: bool,
    t1: Seq<Tile>,
    c1: int,
    a1: Seq<Action>,
) -> bool
    decreases lvl, 1int, kids.len(),
{
    if kids.len() == 0 {
        t1 == t0 && c1 == c0 && a1 == a0
    } else {
        exists|tm: Seq<Tile>, cm: int, am: Seq<Action>|
            #[trigger] chain_link(tm, cm, am) && spec_traverse_kids(
                t0,
                c0,
                a0,
                kids.drop_last(),
                v,
                lvl,
                show,
                tm,
                cm,
                am,
            ) && spec_traverse(tm, cm, am, kids.last(), v, lvl, show, t1, c1, a1)
    }
}

/// The three frame relations compose.
proof fn lemma_relations_trans(a: Seq<Tile>, b: Seq<Tile>, c: Seq<Tile>)
    requires
        same_frame_geometry(a, b),
        same_frame_geometry(b, c),
        tiles_monotone(a, b),
        tiles_monotone(b, c),
        options_shrink(a, b),
        options_shrink(b, c),
    ensures
        same_frame_geometry(a, c),
        tiles_monotone(a, c),
        options_shrink(a, c),
{
}

/// A command sound for a later state of the frame was sound for the
/// earlier one: geometry never moves, content never goes back, and
/// deferred links are never invented.
proof fn lemma_action_ok_transfer(a: Action, s0: Seq<Tile>, s1: Seq<Tile>, v: ViewState)
    requires
        same_frame_geometry(s0, s1),
        tiles_monotone(s0, s1),
        options_shrink(s0, s1),
        action_ok(a, s1, v),
    ensures
        action_ok(a, s0, v),
{
    match a {
        Action::FetchNode { uri, parent } => {
            let k = choose|k: int|
                0 <= k < s1[parent as int].child_options@.len() && (#[trigger] s1[
                    parent as int
                ].child_options@[k]) == uri;
            assert(s1[parent as int].child_options == s0[parent as int].child_options);
            assert(0 <= k < s0[parent as int].child_options@.len() && s0[
                parent as int
            ].child_options@[k] == uri);
        },
        _ => {},
    }
}

/// The table only ever extends: every existing tile keeps its identity and
/// geometry, and its content only advances.
pub open spec fn tiles_extend(a: Seq<Tile>, b: Seq<Tile>) -> bool {
    a.len() <= b.len() && forall|i: int|
        0 <= i < a.len() ==> (#[trigger] b[i]).uri@ == a[i].uri@ && b[i].bv == a[i].bv
            && b[i].bounding == a[i].bounding && b[i].geometric_error == a[i].geometric_error
            && content_step(a[i].content, b[i].content)
}

/// One step of the traversal, on the tile with the given index. An unknown
/// index is skipped. An invisible tile ends its whole subtree: nothing is
/// drawn, fetched or changed for it. A visible tile over the error budget
/// with stored children recurses into them and is itself not drawn. Any
/// other visible tile is a leaf of this frame: its content fetch starts if
/// none has, its deferred links are fetched once if refinement is wanted,
/// its decoded meshes are drawn, and the leaf counter moves.
#[verifier::rlimit(100)]
pub fn render_tile(
    tiles: &mut Vec<Tile>,
    id: usize,
    s: &ViewState,
    counter: &mut usize,
    actions: &mut Vec<Action>,
    max_level: usize,
    show_bounding_boxes: bool,
)
    requires
        tiles_wf(old(tiles)@),
        view_ok(*s),
    ensures
        tiles_wf(final(tiles)@),
        same_frame_geometry(old(tiles)@, final(tiles)@),
        tiles_monotone(old(tiles)@, final(tiles)@),
        options_shrink(old(tiles)@, final(tiles)@),
        *old(counter) <= *final(counter),
        old(actions)@.len() <= final(actions)@.len(),
        forall|j: int|
            0 <= j < old(actions)@.len() ==> #[trigger] final(actions)@[j] == old(actions)@[j],
        forall|j: int|
            old(actions)@.len() <= j < final(actions)@.len() ==> action_ok(
                #[trigger] final(actions)@[j],
                old(tiles)@,
                *s,
            ),
        forall|j: int|
            old(actions)@.len() <= j < final(actions)@.len() ==> (action_draw_tile(
                #[trigger] final(actions)@[j],
            ) is Some ==> action_draw_tile(final(actions)@[j])->Some_0 >= id),
        id >= old(tiles)@.len() ==> final(tiles)@ == old(tiles)@ && final(actions)@ == old(
            actions,
        )@ && *final(counter) == *old(counter),
        id < old(tiles)@.len() && !tile_visible(old(tiles)@[id as int], *s) ==> final(tiles)@
            == old(tiles)@ && final(actions)@ == old(actions)@ && *final(counter) == *old(counter),
        (id < old(tiles)@.len() && tile_visible(old(tiles)@[id as int], *s) && old(tiles)@[
            id as int
        ].children@.len() > 0 && !tile_meets(old(tiles)@[id as int], *s) && max_level > 0)
            ==> forall|j: int|
            old(actions)@.len() <= j < final(actions)@.len() ==> (action_draw_tile(
                #[trigger] final(actions)@[j],
            ) is Some ==> action_draw_tile(final(actions)@[j])->Some_0 > id),
        (id < old(tiles)@.len() && tile_visible(old(tiles)@[id as int], *s) && !(old(tiles)@[
            id as int
        ].children@.len() > 0 && !tile_meets(old(tiles)@[id as int], *s) && max_level > 0)) ==> {
            let t0 = old(tiles)@[id as int];
            let meets = tile_meets(t0, *s);
            &&& final(actions)@ == old(actions)@ + spec_leaf_actions(
                t0,
                id,
                meets,
                max_level as int,
                show_bounding_boxes,
            )
            &&& forall|i: int|
                0 <= i < old(tiles)@.len() && i != id ==> #[trigger] final(tiles)@[i] == old(
                    tiles,
                )@[i]
            &&& (content_rank(t0.content) == 0 ==> content_rank(
                final(tiles)@[id as int].content,
            ) == 1)
            &&& (content_rank(t0.content) != 0 ==> final(tiles)@[id as int].content == t0.content)
            &&& (!meets && t0.child_options@.len() > 0 && max_level > 0 ==> final(tiles)@[
                id as int
            ].child_options@.len() == 0)
            &&& (!(!meets && t0.child_options@.len() > 0 && max_level > 0) ==> final(tiles)@[
                id as int
            ].child_options == t0.child_options)
            &&& *final(counter) as int == (if *old(counter) < usize::MAX {
                *old(counter) + 1
            } else {
                *old(counter) as int
            })
        },
        forall|i: int|
            0 <= i < old(tiles)@.len() && i < id ==> #[trigger] final(tiles)@[i] == old(
                tiles,
            )@[i],
        tiles_render_step(old(tiles)@, final(tiles)@),
        (id < old(tiles)@.len() && tile_visible(old(tiles)@[id as int], *s) && old(tiles)@[
            id as int
        ].children@.len() > 0 && !tile_meets(old(tiles)@[id as int], *s) && max_level > 0)
            ==> final(tiles)@[id as int] == old(tiles)@[id as int],
        spec_traverse(
            old(tiles)@,
            *old(counter) as int,
            old(actions)@,
            id,
            *s,
            max_level as int,
            show_bounding_boxes,
            final(tiles)@,
            *final(counter) as int,
            final(actions)@,
        ),
    decreases max_level,
{
    if id >= tiles.len() {
        proof {
            assert(spec_traverse(
                old(tiles)@,
                *old(counter) as int,
                old(actions)@,
                id,
                *s,
                max_level as int,
                show_bounding_boxes,
                tiles@,
                *counter as int,
                actions@,
            ));
        }
        return ;
    }
    let visible = tiles[id].bv.is_visible(&s.position) && tiles[id].bv.intersects_frustum(
        &s.frustum,
    );
    if !visible {
        proof {
            assert(spec_traverse(
                old(tiles)@,
                *old(counter) as int,
                old(actions)@,
                id,
                *s,
                max_level as int,
                show_bounding_boxes,
                tiles@,
                *counter as int,
                actions@,
            ));
        }
        return ;
    }
    let meets = s.does_tile_meet_sse(&tiles[id].bounding, tiles[id].geometric_error);
    if tiles[id].children.len() > 0 && !meets && max_level > 0 {
        let kids = tiles[id].children.clone();
        proof {
            assert(kids@ =~= old(tiles)@[id as int].children@);
            assert(kids@.subrange(0, 0) =~= Seq::<usize>::empty());
            assert(spec_traverse_kids(
                old(tiles)@,
                *old(counter) as int,
                old(actions)@,
                kids@.subrange(0, 0),
                *s,
                max_level as int - 1,
                show_bounding_boxes,
                tiles@,
                *counter as int,
                actions@,
            ));
        }
        let mut k: usize = 0;
        while k < kids.len()
            invariant
                view_ok(*s),
                0 < max_level,
                k <= kids@.len(),
                id < old(tiles)@.len(),
                kids@ == old(tiles)@[id as int].children@,
                forall|j: int| 0 <= j < kids@.len() ==> id < #[trigger] kids@[j] < old(
                    tiles,
                )@.len(),
                tiles_wf(tiles@),
                same_frame_geometry(old(tiles)@, tiles@),
                tiles_monotone(old(tiles)@, tiles@),
                options_shrink(old(tiles)@, tiles@),
                *old(counter) <= *counter,
                old(actions)@.len() <= actions@.len(),
                forall|j: int|
                    0 <= j < old(actions)@.len() ==> #[trigger] actions@[j] == old(actions)@[j],
                forall|j: int|
                    old(actions)@.len() <= j < actions@.len() ==> action_ok(
                        #[trigger] actions@[j],
                        old(tiles)@,
                        *s,
                    ),
                forall|j: int|
                    old(actions)@.len() <= j < actions@.len() ==> (action_draw_tile(
                        #[trigger] actions@[j],
                    ) is Some ==> action_draw_tile(actions@[j])->Some_0 > id),
                forall|i: int|
                    0 <= i < old(tiles)@.len() && i <= id ==> #[trigger] tiles@[i] == old(
                        tiles,
                    )@[i],
                tiles_render_step(old(tiles)@, tiles@),
                spec_traverse_kids(
                    old(tiles)@,
                    *old(counter) as int,
                    old(actions)@,
                    kids@.subrange(0, k as int),
                    *s,
                    max_level as int - 1,
                    show_bounding_boxes,
                    tiles@,
                    *counter as int,
                    actions@,
                ),
            decreases kids@.len() - k,
        {
            let c = kids[k];
            let ghost m0 = tiles@;
            let ghost c0g = *counter as int;
            let ghost a0 = actions@;
            render_tile(tiles, c, s, counter, actions, max_level - 1, show_bounding_boxes);
            proof {
                lemma_relations_trans(old(tiles)@, m0, tiles@);
                lemma_render_step_trans(old(tiles)@, m0, tiles@);
                assert(kids@.subrange(0, k + 1).drop_last() =~= kids@.subrange(0, k as int));
                assert(kids@.subrange(0, k + 1).last() == kids@[k as int]);
                assert(spec_traverse_kids(
                    old(tiles)@,
                    *old(counter) as int,
                    old(actions)@,
                    kids@.subrange(0, k + 1).drop_last(),
                    *s,
                    max_level as int - 1,
                    show_bounding_boxes,
                    m0,
                    c0g,
                    a0,
                ));
                assert(spec_traverse(
                    m0,
                    c0g,
                    a0,
                    kids@.subrange(0, k + 1).last(),
                    *s,
                    max_level as int - 1,
                    show_bounding_boxes,
                    tiles@,
                    *counter as int,
                    actions@,
                ));
                assert(chain_link(m0, c0g, a0));
                assert(spec_traverse_kids(
                    old(tiles)@,
                    *old(counter) as int,
                    old(actions)@,
                    kids@.subrange(0, k + 1),
                    *s,
                    max_level as int - 1,
                    show_bounding_boxes,
                    tiles@,
                    *counter as int,
                    actions@,
                ));
                assert forall|j: int|
                    old(actions)@.len() <= j < actions@.len() implies action_ok(
                    #[trigger] actions@[j],
                    old(tiles)@,
                    *s,
                ) && (action_draw_tile(actions@[j]) is Some ==> action_draw_tile(
                    actions@[j],
                )->Some_0 > id) by {
                    if j >= a0.len() {
                        lemma_action_ok_transfer(actions@[j], old(tiles)@, m0, *s);
                    }
                }
            }
            k = k + 1;
        }
        proof {
            assert(kids@.subrange(0, kids@.len() as int) =~= kids@);
            assert(spec_traverse(
                old(tiles)@,
                *old(counter) as int,
                old(actions)@,
                id,
                *s,
                max_level as int,
                show_bounding_boxes,
                tiles@,
                *counter as int,
                actions@,
            ));
        }
        return ;
    }
    let ghost t0 = old(tiles)@[id as int];
    let ghost a0 = actions@;
    let content_is_empty = match &tiles[id].content {
        TileContentState::NotLoaded => true,
        _ => false,
    };
    if content_is_empty {
        actions.push(Action::FetchContent { tile: id });
        let t = tile_at_mut(tiles, id);
        t.content = TileContentState::Loading;
    }
    let ghost fetchseq: Seq<Action> = if content_rank(t0.content) == 0 {
        seq![Action::FetchContent { tile: id }]
    } else {
        Seq::empty()
    };
    proof {
        assert(actions@ =~= a0 + fetchseq);
    }
    let want_links = !meets && tiles[id].child_options.len() > 0 && max_level > 0;
    if want_links {
        let t = tile_at_mut(tiles, id);
        let mut opts: Vec<Vec<u8>> = Vec::new();
        core::mem::swap(&mut t.child_options, &mut opts);
        let ghost opts0 = opts@;
        let n_opts = opts.len();
        let mut w: usize = 0;
        while opts.len() > 0
            invariant
                opts0.len() == n_opts,
                w + opts@.len() == opts0.len(),
                opts@ == opts0.subrange(w as int, opts0.len() as int),
                actions@ =~= a0 + fetchseq + Seq::new(
                    w as nat,
                    |k: int| Action::FetchNode { uri: opts0[k], parent: id },
                ),
            decreases opts@.len(),
        {
            let u = opts.remove(0);
            proof {
                assert(u == opts0[w as int]);
                assert(opts@ =~= opts0.subrange(w + 1, opts0.len() as int));
            }
            actions.push(Action::FetchNode { uri: u, parent: id });
            w = w + 1;
            proof {
                assert(actions@ =~= a0 + fetchseq + Seq::new(
                    w as nat,
                    |k: int| Action::FetchNode { uri: opts0[k], parent: id },
                ));
            }
        }
        proof {
            assert(opts0 == t0.child_options@);
            assert(actions@ =~= a0 + leaf_prefix(t0, id, meets, max_level as int));
        }
    } else {
        proof {
            assert(actions@ =~= a0 + leaf_prefix(t0, id, meets, max_level as int));
        }
    }
    let ghost prefix = a0 + leaf_prefix(t0, id, meets, max_level as int);
    let n_ready = match &tiles[id].content {
        TileContentState::Ready(m) => m.len(),
        _ => 0,
    };
    proof {
        assert(n_ready == ready_mats(t0.content).len());
    }
    let mut j: usize = 0;
    while j < n_ready
        invariant
            j <= n_ready,
            actions@ =~= prefix + Seq::new(
                j as nat,
                |p: int| Action::DrawMesh { tile: id, content: p as usize },
            ),
        decreases n_ready - j,
    {
        actions.push(Action::DrawMesh { tile: id, content: j });
        j = j + 1;
        proof {
            assert(actions@ =~= prefix + Seq::new(
                j as nat,
                |p: int| Action::DrawMesh { tile: id, content: p as usize },
            ));
        }
    }
    if *counter < usize::MAX {
        *counter = *counter + 1;
    }
    if show_bounding_boxes {
        actions.push(Action::DrawBox { tile: id });
    }
    proof {
        assert(Seq::new(
            n_ready as nat,
            |p: int| Action::DrawMesh { tile: id, content: p as usize },
        ) =~= (match t0.content {
            TileContentState::Ready(m) => Seq::new(
                m@.len(),
                |q: int| Action::DrawMesh { tile: id, content: q as usize },
            ),
            _ => Seq::empty(),
        }));
        assert(actions@ =~= a0 + spec_leaf_actions(
            t0,
            id,
            meets,
            max_level as int,
            show_bounding_boxes,
        ));
        assert(meets == tile_meets(t0, *s));
        assert(tiles@[id as int].uri == t0.uri);
        assert(tiles@[id as int].bv == t0.bv);
        assert(tiles@[id as int].bounding == t0.bounding);
        assert(tiles@[id as int].geometric_error == t0.geometric_error);
        assert(tiles@[id as int].parent == t0.parent);
        assert(tiles@[id as int].children == t0.children);
        assert(tiles@[id as int].content == (if content_rank(t0.content) == 0 {
            TileContentState::Loading
        } else {
            t0.content
        }));
        assert forall|i: int|
            0 <= i < old(tiles)@.len() implies ((#[trigger] tiles@[i]).content == old(
            tiles,
        )@[i].content || (content_rank(old(tiles)@[i].content) == 0 && tiles@[i].content
            is Loading)) by {
            if i != id {
                assert(tiles@[i] == old(tiles)@[i]);
            }
        }
        assert(tiles_render_step(old(tiles)@, tiles@));
        assert(spec_traverse(
            old(tiles)@,
            *old(counter) as int,
            old(actions)@,
            id,
            *s,
            max_level as int,
            show_bounding_boxes,
            tiles@,
            *counter as int,
            actions@,
        ));
    }
}

/// The fetch commands a leaf visit emits before its draws.
pub open spec fn leaf_prefix(t: Tile, id: usize, meets: bool, max_level: int) -> Seq<Action> {
    (if content_rank(t.content) == 0 {
        seq![Action::FetchContent { tile: id }]
    } else {
        Seq::empty()
    }) + (if !meets && t.child_options@.len() > 0 && max_level > 0 {
        Seq::new(
            t.child_options@.len(),
            |k: int| Action::FetchNode { uri: t.child_options@[k], parent: id },
        )
    } else {
        Seq::empty()
    })
}

/// Whether the bootstrap has delivered a client yet.
pub enum ClientState {
    Pending,
    Ready(Client),
}

/// The tile store: the caller's key, the bootstrap state, the flat tile
/// table, the root tiles, and whether the root document has been walked.
pub struct TileCache {
    pub key: Vec<u8>,
    pub client: ClientState,
    pub tiles: Vec<Tile>,
    pub roots: Vec<usize>,
    pub has_load_root: bool,
}

/// One completion the unverified runner hands back to the cache: the
/// bootstrap's client, a fetched node document for a deferred link, or the
/// decoded transforms of a tile's content.
pub enum LoadEvent {
    ClientArrived(Client),
    NodeArrived { parent: usize, node: Node },
    ContentArrived { tile: usize, transforms: Vec<Mat4i> },
}

/// The bounds an event must respect to enter the cache.
pub open spec fn event_ok(e: LoadEvent) -> bool {
    match e {
        LoadEvent::ClientArrived(c) => node_bounded(c.root),
        LoadEvent::NodeArrived { parent, node } => node_bounded(node),
        LoadEvent::ContentArrived { tile, transforms } => forall|j: int|
            0 <= j < transforms@.len() ==> mat_bounded(
                #[trigger] transforms@[j],
                0x4000_0000_0000_0000,
            ),
    }
}

/// The bounds over a whole batch of events.
pub open spec fn events_ok(s: Seq<LoadEvent>) -> bool {
    forall|i: int| 0 <= i < s.len() ==> event_ok(#[trigger] s[i])
}

/// Checks one matrix against the transform bound, for unverified callers.
pub fn check_transform(m: &Mat4i) -> (r: bool)
    ensures
        r == mat_bounded(*m, 0x4000_0000_0000_0000),
{
    let b: i64 = 0x4000_0000_0000_0000;
    -b <= m.c0r0 && m.c0r0 <= b && -b <= m.c0r1 && m.c0r1 <= b && -b <= m.c0r2 && m.c0r2 <= b
        && -b <= m.c0r3 && m.c0r3 <= b && -b <= m.c1r0 && m.c1r0 <= b && -b <= m.c1r1 && m.c1r1 <= b
        && -b <= m.c1r2 && m.c1r2 <= b && -b <= m.c1r3 && m.c1r3 <= b && -b <= m.c2r0 && m.c2r0 <= b
        && -b <= m.c2r1 && m.c2r1 <= b && -b <= m.c2r2 && m.c2r2 <= b && -b <= m.c2r3 && m.c2r3 <= b
        && -b <= m.c3r0 && m.c3r0 <= b && -b <= m.c3r1 && m.c3r1 <= b && -b <= m.c3r2 && m.c3r2 <= b
        && -b <= m.c3r3 && m.c3r3 <= b
}

/// Checks one event against its bounds, for unverified callers.
pub fn check_event(e: &LoadEvent) -> (r: bool)
    ensures
        r == event_ok(*e),
{
    match e {
        LoadEvent::ClientArrived(c) => c.root.check_bounded(),
        LoadEvent::NodeArrived { parent: _ignored, node } => node.check_bounded(),
        LoadEvent::ContentArrived { tile: _ignored, transforms } => {
            let mut j: usize = 0;
            while j < transforms.len()
                invariant
                    j <= transforms@.len(),
                    e is ContentArrived,
                    (*e)->ContentArrived_transforms == *transforms,
                    forall|k: int|
                        0 <= k < j ==> mat_bounded(
                            #[trigger] transforms@[k],
                            0x4000_0000_0000_0000,
                        ),
                decreases transforms@.len() - j,
            {
                if !check_transform(&transforms[j]) {
                    proof {
                        assert(!event_ok(*e)) by {
                            if event_ok(*e) {
                                assert(mat_bounded(transforms@[j as int], 0x4000_0000_0000_0000));
                            }
                        }
                    }
                    return false;
                }
                j = j + 1;
            }
            true
        },
    }
}

/// What walking the root document once does to a cache, as maybe_load_root
/// performs it: nothing while the bootstrap is pending, the document
/// already walked, or the session empty; else the flag is set, the tree's
/// mesh tiles enter the table and its top tiles the root list, exactly,
/// whenever the tree's addresses are fresh.
pub open spec fn spec_root_walk(a: TileCache, b: TileCache) -> bool {
    &&& tiles_extend(a.tiles@, b.tiles@)
    &&& b.key@ == a.key@
    &&& b.client == a.client
    &&& b.roots@.len() >= a.roots@.len()
    &&& (forall|j: int| 0 <= j < a.roots@.len() ==> #[trigger] b.roots@[j] == a.roots@[j])
    &&& (a.has_load_root ==> b == a)
    &&& (!(a.client is Ready) ==> b == a)
    &&& b.has_load_root == (a.has_load_root || (a.client is Ready
        && a.client->Ready_0.session@.len() > 0))
    &&& ((a.client is Ready && !a.has_load_root && a.client->Ready_0.session@.len() == 0) ==> b
        == a)
    &&& ((a.client is Ready && !a.has_load_root && a.client->Ready_0.session@.len() > 0) ==> {
        let rt = a.client->Ready_0.root;
        &&& (forall|i: int| 0 <= i < a.tiles@.len() ==> #[trigger] b.tiles@[i] == a.tiles@[i])
        &&& (forall|i: int|
            a.tiles@.len() <= i < b.tiles@.len() ==> content_rank(
                (#[trigger] b.tiles@[i]).content,
            ) == 0)
        &&& (fill_fresh(rt, a.tiles@) ==> {
            &&& b.tiles@.len() == a.tiles@.len() + node_glb_uris(rt).len()
            &&& b.tiles@.len() == a.tiles@.len() + node_glb_info(rt).len()
            &&& (forall|i: int|
                a.tiles@.len() <= i < b.tiles@.len() ==> (#[trigger] b.tiles@[i]).uri@
                    == node_glb_uris(rt)[i - a.tiles@.len()])
            &&& (forall|i: int|
                a.tiles@.len() <= i < b.tiles@.len() ==> (#[trigger] b.tiles@[i]).bv
                    == node_glb_info(rt)[i - a.tiles@.len()].0 && b.tiles@[i].geometric_error
                    == node_glb_info(rt)[i - a.tiles@.len()].1)
            &&& b.roots@.len() == a.roots@.len() + node_root_uris(rt).len()
            &&& (forall|j: int|
                0 <= j < node_root_uris(rt).len() ==> b.tiles@[(#[trigger] b.roots@[
                    a.roots@.len() + j
                ]) as int].uri@ == node_root_uris(rt)[j])
        })
    })
}

/// Taking the bootstrap's client: the first delivery sticks, then the
/// root walk runs.
pub open spec fn spec_client_arrive(a: TileCache, c: Client, m: TileCache) -> bool {
    &&& m.key == a.key
    &&& m.tiles == a.tiles
    &&& m.roots == a.roots
    &&& m.has_load_root == a.has_load_root
    &&& m.client == (if a.client is Pending {
        ClientState::Ready(c)
    } else {
        a.client
    })
}

/// The whole effect of delivering the bootstrap's client.
pub open spec fn spec_client_step(a: TileCache, c: Client, b: TileCache) -> bool {
    exists|m: TileCache| #[trigger] spec_client_arrive(a, c, m) && spec_root_walk(m, b)
}

/// The whole effect of delivering a fetched node document: the tree's mesh
/// tiles enter the table and its top tiles are spliced under the waiting
/// parent, exactly, whenever the tree's addresses are fresh.
pub open spec fn spec_node_step(a: TileCache, parent: usize, node: Node, b: TileCache) -> bool {
    &&& tiles_extend(a.tiles@, b.tiles@)
    &&& b.key@ == a.key@
    &&& b.client == a.client
    &&& b.roots == a.roots
    &&& b.has_load_root == a.has_load_root
    &&& (forall|i: int|
        0 <= i < a.tiles@.len() && i != parent ==> #[trigger] b.tiles@[i] == a.tiles@[i])
    &&& (forall|i: int|
        a.tiles@.len() <= i < b.tiles@.len() ==> content_rank(
            (#[trigger] b.tiles@[i]).content,
        ) == 0)
    &&& (fill_fresh(node, a.tiles@) ==> {
        &&& b.tiles@.len() == a.tiles@.len() + node_glb_uris(node).len()
        &&& b.tiles@.len() == a.tiles@.len() + node_glb_info(node).len()
        &&& (forall|i: int|
            a.tiles@.len() <= i < b.tiles@.len() ==> (#[trigger] b.tiles@[i]).uri@
                == node_glb_uris(node)[i - a.tiles@.len()])
        &&& (forall|i: int|
            a.tiles@.len() <= i < b.tiles@.len() ==> (#[trigger] b.tiles@[i]).bv
                == node_glb_info(node)[i - a.tiles@.len()].0 && b.tiles@[i].geometric_error
                == node_glb_info(node)[i - a.tiles@.len()].1)
    })
    &&& (fill_fresh(node, a.tiles@) && parent < a.tiles@.len() ==> {
        let pc = a.tiles@[parent as int].children@;
        &&& b.tiles@[parent as int].children@.len() == pc.len() + node_root_uris(node).len()
        &&& (forall|j: int|
            0 <= j < pc.len() ==> #[trigger] b.tiles@[parent as int].children@[j] == pc[j])
        &&& (forall|j: int|
            0 <= j < node_root_uris(node).len() ==> b.tiles@[(#[trigger] b.tiles@[
                parent as int
            ].children@[pc.len() + j]) as int].uri@ == node_root_uris(node)[j])
        &&& b.tiles@[parent as int].content == a.tiles@[parent as int].content
        &&& b.tiles@[parent as int].child_options == a.tiles@[parent as int].child_options
        &&& b.tiles@[parent as int].parent == a.tiles@[parent as int].parent
    })
}

/// The whole effect of delivering decoded content: a tile whose fetch is
/// in flight becomes ready with the axis-swapped matrices; any other
/// delivery changes nothing.
pub open spec fn spec_content_arrive(
    a: TileCache,
    tile: usize,
    transforms: Vec<Mat4i>,
    b: TileCache,
) -> bool {
    &&& tiles_extend(a.tiles@, b.tiles@)
    &&& b.tiles@.len() == a.tiles@.len()
    &&& b.key@ == a.key@
    &&& b.client == a.client
    &&& b.roots == a.roots
    &&& b.has_load_root == a.has_load_root
    &&& (tile < a.tiles@.len() && content_rank(a.tiles@[tile as int].content) == 1 ==> {
        &&& content_rank(b.tiles@[tile as int].content) == 2
        &&& ready_mats(b.tiles@[tile as int].content).len() == transforms@.len()
        &&& (forall|j: int|
            0 <= j < transforms@.len() ==> ready_mats(b.tiles@[tile as int].content)[j]
                == spec_yz_swap_of(#[trigger] transforms@[j]))
        &&& (forall|i: int|
            0 <= i < a.tiles@.len() && i != tile ==> #[trigger] b.tiles@[i] == a.tiles@[i])
    })
    &&& (!(tile < a.tiles@.len() && content_rank(a.tiles@[tile as int].content) == 1) ==> b.tiles@
        == a.tiles@)
}

/// The effect of one load event, by its kind.
pub open spec fn spec_event_step(a: TileCache, e: LoadEvent, b: TileCache) -> bool {
    match e {
        LoadEvent::ClientArrived(c) => spec_client_step(a, c, b),
        LoadEvent::NodeArrived { parent, node } => spec_node_step(a, parent, node, b),
        LoadEvent::ContentArrived { tile, transforms } => spec_content_arrive(
            a,
            tile,
            transforms,
            b,
        ),
    }
}

/// The batch applied in order: some chain of intermediate caches connects
/// the start to the end, one event step each.
pub open spec fn spec_load_chain(a: TileCache, es: Seq<LoadEvent>, b: TileCache) -> bool
    decreases es.len(),
{
    if es.len() == 0 {
        b == a
    } else {
        exists|m: TileCache| #[trigger] spec_event_step(a, es[0], m) && spec_load_chain(
            m,
            es.drop_first(),
            b,
        )
    }
}

/// A chain grows at its end.
proof fn lemma_load_chain_snoc(a: TileCache, es: Seq<LoadEvent>, m: TileCache, e: LoadEvent, b: TileCache)
    requires
        spec_load_chain(a, es, m),
        spec_event_step(m, e, b),
    ensures
        spec_load_chain(a, es.push(e), b),
    decreases es.len(),
{
    if es.len() == 0 {
        assert(m == a);
        assert(es.push(e)[0] == e);
        assert(es.push(e).drop_first() =~= Seq::<LoadEvent>::empty());
        assert(spec_event_step(a, es.push(e)[0], b));
        assert(spec_load_chain(b, es.push(e).drop_first(), b));
    } else {
        let m0 = choose|m0: TileCache|
            #[trigger] spec_event_step(a, es[0], m0) && spec_load_chain(m0, es.drop_first(), m);
        lemma_load_chain_snoc(m0, es.drop_first(), m, e, b);
        assert(es.push(e)[0] == es[0]);
        assert(es.push(e).drop_first() =~= es.drop_first().push(e));
        assert(spec_event_step(a, es.push(e)[0], m0));
        assert(spec_load_chain(m0, es.push(e).drop_first(), b));
    }
}

impl TileCache {
    /// The cache is sound: every tile's geometry is in range, every child
    /// link points strictly forward within the table, every root is a
    /// stored tile, and a delivered client carries a bounded hierarchy.
    pub open spec fn wf(self) -> bool {
        tiles_wf(self.tiles@) && (forall|i: int|
            0 <= i < self.roots@.len() ==> (#[trigger] self.roots@[i]) < self.tiles@.len()) && (
        match self.client {
            ClientState::Ready(c) => node_bounded(c.root),
            ClientState::Pending => true,
        })
    }

    /// An empty cache holding the caller's key, its bootstrap pending.
    pub fn new(key: Vec<u8>) -> (r: TileCache)
        ensures
            r.wf(),
            r.key@ == key@,
            r.client is Pending,
            r.tiles@.len() == 0,
            r.roots@.len() == 0,
            !r.has_load_root,
    {
        TileCache {
            key,
            client: ClientState::Pending,
            tiles: Vec::new(),
            roots: Vec::new(),
            has_load_root: false,
        }
    }

    /// Walks the client's root document into the table, once, as soon as a
    /// client with a session is held. A client without a session never
    /// loads anything.
    fn maybe_load_root(&mut self)
        requires
            old(self).wf(),
        ensures
            final(self).wf(),
            tiles_extend(old(self).tiles@, final(self).tiles@),
            final(self).key@ == old(self).key@,
            final(self).client == old(self).client,
            final(self).roots@.len() >= old(self).roots@.len(),
            forall|j: int|
                0 <= j < old(self).roots@.len() ==> #[trigger] final(self).roots@[j] == old(
                    self,
                ).roots@[j],
            old(self).has_load_root ==> *final(self) == *old(self),
            !(old(self).client is Ready) ==> *final(self) == *old(self),
            spec_root_walk(*old(self), *final(self)),
    {
        if self.has_load_root {
            return ;
        }
        match &self.client {
            ClientState::Ready(c) => {
                if c.session.len() == 0 {
                    return ;
                }
                self.has_load_root = true;
                let mut new_roots: Vec<usize> = Vec::new();
                let _ = Tile::fill(&mut self.tiles, &c.root, Option::None, &mut new_roots, true);
                let ghost tfill = self.tiles@;
                proof {
                    assert(self.roots@ =~= old(self).roots@ + new_roots@.subrange(0, 0));
                }
                let mut j: usize = 0;
                while j < new_roots.len()
                    invariant
                        j <= new_roots@.len(),
                        forall|k: int|
                            0 <= k < new_roots@.len() ==> (#[trigger] new_roots@[k])
                                < self.tiles@.len(),
                        self.tiles@ == tfill,
                        self.roots@ == old(self).roots@ + new_roots@.subrange(0, j as int),
                        self.key@ == old(self).key@,
                        self.client == old(self).client,
                        self.has_load_root,
                    decreases new_roots@.len() - j,
                {
                    let idx = new_roots[j];
                    proof {
                        assert(new_roots@.subrange(0, j + 1) =~= new_roots@.subrange(
                            0,
                            j as int,
                        ).push(new_roots@[j as int]));
                    }
                    self.roots.push(idx);
                    proof {
                        assert(self.roots@ =~= old(self).roots@ + new_roots@.subrange(0, j + 1));
                    }
                    j = j + 1;
                }
                proof {
                    assert(new_roots@.subrange(0, new_roots@.len() as int) =~= new_roots@);
                    assert(self.roots@ == old(self).roots@ + new_roots@);
                    assert(self.tiles@ == tfill);
                    assert(old(self).client is Ready);
                    assert(old(self).client->Ready_0.root == c.root);
                    assert(old(self).client->Ready_0.session@.len() > 0);
                    if fill_fresh(c.root, old(self).tiles@) {
                        assert(self.roots@.len() == old(self).roots@.len() + node_root_uris(
                            c.root,
                        ).len());
                        assert forall|j: int|
                            0 <= j < node_root_uris(c.root).len() implies self.tiles@[(
                        self.roots@[old(self).roots@.len() + j]) as int].uri@ == node_root_uris(
                            c.root,
                        )[j] by {
                            assert(new_roots@[0 + j] == new_roots@[j]);
                            assert(self.roots@[old(self).roots@.len() + j] == new_roots@[j]);
                        }
                    }
                    assert(spec_root_walk(*old(self), *self));
                }
            },
            ClientState::Pending => {},
        }
    }

    /// Takes the bootstrap's client. The first delivery sticks: a later one
    /// is ignored, as the session token is fixed for the cache's lifetime.
    /// With a session held, the root document is walked at once.
    pub fn apply_client(&mut self, c: Client)
        requires
            old(self).wf(),
            node_bounded(c.root),
        ensures
            final(self).wf(),
            tiles_extend(old(self).tiles@, final(self).tiles@),
            final(self).key@ == old(self).key@,
            old(self).client is Ready ==> final(self).client == old(self).client,
            final(self).roots@.len() >= old(self).roots@.len(),
            forall|j: int|
                0 <= j < old(self).roots@.len() ==> #[trigger] final(self).roots@[j] == old(
                    self,
                ).roots@[j],
            old(self).client is Pending ==> final(self).client == ClientState::Ready(c),
            spec_client_step(*old(self), c, *final(self)),
    {
        match &self.client {
            ClientState::Pending => {
                self.client = ClientState::Ready(c);
            },
            ClientState::Ready(_) => {},
        }
        let ghost m = *self;
        self.maybe_load_root();
        proof {
            assert(spec_client_arrive(*old(self), c, m));
        }
    }

    /// Takes a fetched node document for a deferred link: walks it into the
    /// table and splices its top tiles under the waiting parent.
    pub fn apply_node(&mut self, parent: usize, node: &Node)
        requires
            old(self).wf(),
            node_bounded(*node),
        ensures
            final(self).wf(),
            tiles_extend(old(self).tiles@, final(self).tiles@),
            final(self).key@ == old(self).key@,
            final(self).client == old(self).client,
            final(self).roots == old(self).roots,
            final(self).has_load_root == old(self).has_load_root,
            forall|i: int|
                0 <= i < old(self).tiles@.len() && i != parent ==> #[trigger] final(self).tiles@[i]
                    == old(self).tiles@[i],
            spec_node_step(*old(self), parent, *node, *final(self)),
    {
        let p_opt: Option<usize> = if parent < self.tiles.len() {
            Some(parent)
        } else {
            None
        };
        let mut sub_roots: Vec<usize> = Vec::new();
        let _ = Tile::fill(&mut self.tiles, node, p_opt, &mut sub_roots, true);
        if parent < self.tiles.len() {
            let ghost mid = self.tiles@;
            let mut j: usize = 0;
            proof {
                if parent < old(self).tiles@.len() {
                    assert(self.tiles@[parent as int].children@ =~= mid[
                        parent as int
                    ].children@ + sub_roots@.subrange(0, 0));
                }
            }
            while j < sub_roots.len()
                invariant
                    parent < self.tiles@.len(),
                    j <= sub_roots@.len(),
                    forall|k: int|
                        0 <= k < sub_roots@.len() ==> old(self).tiles@.len() <= (
                        #[trigger] sub_roots@[k]) < self.tiles@.len(),
                    tiles_wf(self.tiles@),
                    self.tiles@.len() == mid.len(),
                    forall|i: int|
                        0 <= i < self.tiles@.len() && i != parent ==> #[trigger] self.tiles@[i]
                            == mid[i],
                    self.tiles@[parent as int].uri == mid[parent as int].uri,
                    self.tiles@[parent as int].bv == mid[parent as int].bv,
                    self.tiles@[parent as int].bounding == mid[parent as int].bounding,
                    self.tiles@[parent as int].geometric_error == mid[
                        parent as int
                    ].geometric_error,
                    self.tiles@[parent as int].content == mid[parent as int].content,
                    self.tiles@[parent as int].parent == mid[parent as int].parent,
                    self.tiles@[parent as int].child_options == mid[parent as int].child_options,
                    parent < old(self).tiles@.len() ==> self.tiles@[parent as int].children@ == mid[
                        parent as int
                    ].children@ + sub_roots@.subrange(0, j as int),
                    tiles_extend(old(self).tiles@, self.tiles@),
                    self.key@ == old(self).key@,
                    self.client == old(self).client,
                    self.roots == old(self).roots,
                    self.has_load_root == old(self).has_load_root,
                decreases sub_roots@.len() - j,
            {
                let c = sub_roots[j];
                proof {
                    if parent < old(self).tiles@.len() {
                        assert(sub_roots@.subrange(0, j + 1) =~= sub_roots@.subrange(
                            0,
                            j as int,
                        ).push(sub_roots@[j as int]));
                    }
                }
                if c > parent {
                    let t = tile_at_mut(&mut self.tiles, parent);
                    t.children.push(c);
                }
                j = j + 1;
            }
            proof {
                assert(sub_roots@.subrange(0, sub_roots@.len() as int) =~= sub_roots@);
                if fill_fresh(*node, old(self).tiles@) && parent < old(self).tiles@.len() {
                    let pc = old(self).tiles@[parent as int].children@;
                    assert(mid[parent as int].children@ == pc);
                    assert(self.tiles@[parent as int].children@ == pc + sub_roots@);
                    assert(sub_roots@.len() == node_root_uris(*node).len());
                    assert forall|j2: int|
                        0 <= j2 < node_root_uris(*node).len() implies self.tiles@[(
                    #[trigger] self.tiles@[parent as int].children@[pc.len() + j2]) as int].uri@
                        == node_root_uris(*node)[j2] by {
                        assert(sub_roots@[0 + j2] == sub_roots@[j2]);
                        assert(self.tiles@[parent as int].children@[pc.len() + j2]
                            == sub_roots@[j2]);
                        assert((sub_roots@[j2] as int) != parent as int);
                        assert(self.tiles@[sub_roots@[j2] as int] == mid[sub_roots@[j2] as int]);
                    }
                }
            }
        }
        proof {
            assert(spec_node_step(*old(self), parent, *node, *self));
        }
    }

    /// Takes the decoded transforms of a tile's content: a tile whose fetch
    /// is in flight becomes ready in this very call, its model matrices the
    /// axis-swap composition of the decoded node transforms. Any other
    /// delivery is ignored, so ready content is never replaced.
    pub fn apply_content(&mut self, tile: usize, transforms: Vec<Mat4i>)
        requires
            old(self).wf(),
            forall|j: int|
                0 <= j < transforms@.len() ==> mat_bounded(
                    #[trigger] transforms@[j],
                    0x4000_0000_0000_0000,
                ),
        ensures
            final(self).wf(),
            tiles_extend(old(self).tiles@, final(self).tiles@),
            final(self).tiles@.len() == old(self).tiles@.len(),
            final(self).key@ == old(self).key@,
            final(self).client == old(self).client,
            final(self).roots == old(self).roots,
            final(self).has_load_root == old(self).has_load_root,
            tile < old(self).tiles@.len() && content_rank(old(self).tiles@[tile as int].content)
                == 1 ==> {
                &&& content_rank(final(self).tiles@[tile as int].content) == 2
                &&& ready_mats(final(self).tiles@[tile as int].content).len()
                    == transforms@.len()
                &&& forall|j: int|
                    0 <= j < transforms@.len() ==> ready_mats(
                        final(self).tiles@[tile as int].content,
                    )[j] == spec_yz_swap_of(#[trigger] transforms@[j])
                &&& forall|i: int|
                    0 <= i < old(self).tiles@.len() && i != tile
                        ==> #[trigger] final(self).tiles@[i] == old(self).tiles@[i]
            },
            !(tile < old(self).tiles@.len() && content_rank(old(self).tiles@[tile as int].content)
                == 1) ==> final(self).tiles@ == old(self).tiles@,
            spec_content_arrive(*old(self), tile, transforms, *final(self)),
    {
        if tile >= self.tiles.len() {
            return ;
        }
        let is_loading = match &self.tiles[tile].content {
            TileContentState::Loading => true,
            _ => false,
        };
        if !is_loading {
            return ;
        }
        let mut mats: Vec<Mat4i> = Vec::new();
        let mut j: usize = 0;
        while j < transforms.len()
            invariant
                j <= transforms@.len(),
                mats@.len() == j,
                forall|k: int|
                    0 <= k < transforms@.len() ==> mat_bounded(
                        #[trigger] transforms@[k],
                        0x4000_0000_0000_0000,
                    ),
                forall|k: int|
                    0 <= k < j ==> #[trigger] mats@[k] == spec_yz_swap_of(transforms@[k]),
            decreases transforms@.len() - j,
        {
            mats.push(final_model_matrix(&transforms[j]));
            j = j + 1;
        }
        let t = tile_at_mut(&mut self.tiles, tile);
        t.content = TileContentState::Ready(mats);
    }

    /// The per-frame traversal: culls, refines, fetches lazily and draws
    /// the finest visible tiles, as render_tile does for each root. Returns
    /// the number of leaves visited and the frame's commands, in order.
    /// Without a ready client nothing is drawn and nothing is fetched.
    pub fn render(&mut self, s: &ViewState, show_bounding_boxes: bool) -> (r: (usize, Vec<Action>))
        requires
            old(self).wf(),
            view_ok(*s),
        ensures
            final(self).wf(),
            final(self).key@ == old(self).key@,
            final(self).client == old(self).client,
            final(self).roots == old(self).roots,
            final(self).has_load_root == old(self).has_load_root,
            same_frame_geometry(old(self).tiles@, final(self).tiles@),
            tiles_monotone(old(self).tiles@, final(self).tiles@),
            tiles_extend(old(self).tiles@, final(self).tiles@),
            options_shrink(old(self).tiles@, final(self).tiles@),
            forall|j: int|
                0 <= j < r.1@.len() ==> action_ok(#[trigger] r.1@[j], old(self).tiles@, *s),
            !(old(self).client is Ready) ==> r.0 == 0 && r.1@.len() == 0 && final(self).tiles@
                == old(self).tiles@,
            old(self).roots@.len() == 0 ==> r.0 == 0 && r.1@.len() == 0,
            tiles_render_step(old(self).tiles@, final(self).tiles@),
            old(self).client is Ready ==> spec_traverse_kids(
                old(self).tiles@,
                0,
                Seq::<Action>::empty(),
                old(self).roots@,
                *s,
                20,
                show_bounding_boxes,
                final(self).tiles@,
                r.0 as int,
                r.1@,
            ),
    {
        match &self.client {
            ClientState::Pending => {
                return (0, Vec::new());
            },
            ClientState::Ready(_) => {},
        }
        let mut counter: usize = 0;
        let mut actions: Vec<Action> = Vec::new();
        proof {
            assert(actions@ =~= Seq::<Action>::empty());
            assert(old(self).roots@.subrange(0, 0) =~= Seq::<usize>::empty());
            assert(spec_traverse_kids(
                old(self).tiles@,
                0,
                Seq::<Action>::empty(),
                old(self).roots@.subrange(0, 0),
                *s,
                20,
                show_bounding_boxes,
                self.tiles@,
                counter as int,
                actions@,
            ));
        }
        let mut i: usize = 0;
        while i < self.roots.len()
            invariant
                view_ok(*s),
                i <= self.roots@.len(),
                self.roots == old(self).roots,
                self.key@ == old(self).key@,
                self.client == old(self).client,
                self.has_load_root == old(self).has_load_root,
                old(self).wf(),
                tiles_wf(self.tiles@),
                forall|k: int|
                    0 <= k < self.roots@.len() ==> (#[trigger] self.roots@[k])
                        < self.tiles@.len(),
                same_frame_geometry(old(self).tiles@, self.tiles@),
                tiles_monotone(old(self).tiles@, self.tiles@),
                options_shrink(old(self).tiles@, self.tiles@),
                forall|j: int|
                    0 <= j < actions@.len() ==> action_ok(
                        #[trigger] actions@[j],
                        old(self).tiles@,
                        *s,
                    ),
                self.roots@.len() == 0 ==> counter == 0 && actions@.len() == 0,
                tiles_render_step(old(self).tiles@, self.tiles@),
                spec_traverse_kids(
                    old(self).tiles@,
                    0,
                    Seq::<Action>::empty(),
                    old(self).roots@.subrange(0, i as int),
                    *s,
                    20,
                    show_bounding_boxes,
                    self.tiles@,
                    counter as int,
                    actions@,
                ),
            decreases self.roots@.len() - i,
        {
            let root = self.roots[i];
            let ghost m0 = self.tiles@;
            let ghost c0g = counter as int;
            let ghost a0 = actions@;
            render_tile(&mut self.tiles, root, s, &mut counter, &mut actions, 20,
                show_bounding_boxes);
            proof {
                lemma_relations_trans(old(self).tiles@, m0, self.tiles@);
                lemma_render_step_trans(old(self).tiles@, m0, self.tiles@);
                assert forall|j: int| 0 <= j < actions@.len() implies action_ok(
                    #[trigger] actions@[j],
                    old(self).tiles@,
                    *s,
                ) by {
                    if j >= a0.len() {
                        lemma_action_ok_transfer(actions@[j], old(self).tiles@, m0, *s);
                    }
                }
                assert(old(self).roots@.subrange(0, i + 1).drop_last() =~= old(
                    self,
                ).roots@.subrange(0, i as int));
                assert(old(self).roots@.subrange(0, i + 1).last() == old(self).roots@[i as int]);
                assert(spec_traverse_kids(
                    old(self).tiles@,
                    0,
                    Seq::<Action>::empty(),
                    old(self).roots@.subrange(0, i + 1).drop_last(),
                    *s,
                    20,
                    show_bounding_boxes,
                    m0,
                    c0g,
                    a0,
                ));
                assert(spec_traverse(
                    m0,
                    c0g,
                    a0,
                    old(self).roots@.subrange(0, i + 1).last(),
                    *s,
                    20,
                    show_bounding_boxes,
                    self.tiles@,
                    counter as int,
                    actions@,
                ));
                assert(chain_link(m0, c0g, a0));
                assert(spec_traverse_kids(
                    old(self).tiles@,
                    0,
                    Seq::<Action>::empty(),
                    old(self).roots@.subrange(0, i + 1),
                    *s,
                    20,
                    show_bounding_boxes,
                    self.tiles@,
                    counter as int,
                    actions@,
                ));
            }
            i = i + 1;
        }
        proof {
            assert(tiles_extend(old(self).tiles@, self.tiles@));
            assert(old(self).roots@.subrange(0, old(self).roots@.len() as int) =~= old(
                self,
            ).roots@);
        }
        (counter, actions)
    }

    /// The per-frame intake: walks the root document as soon as the client
    /// is ready, then applies each completion in order. Content only ever
    /// advances; the table and the root list only ever extend.
    pub fn load(&mut self, events: Vec<LoadEvent>)
        requires
            old(self).wf(),
            events_ok(events@),
        ensures
            final(self).wf(),
            tiles_extend(old(self).tiles@, final(self).tiles@),
            final(self).key@ == old(self).key@,
            final(self).roots@.len() >= old(self).roots@.len(),
            forall|j: int|
                0 <= j < old(self).roots@.len() ==> #[trigger] final(self).roots@[j] == old(
                    self,
                ).roots@[j],
            exists|mid: TileCache|
                #[trigger] spec_root_walk(*old(self), mid) && spec_load_chain(
                    mid,
                    events@,
                    *final(self),
                ),
    {
        let ghost ev0 = events@;
        self.maybe_load_root();
        let ghost mid0 = *self;
        proof {
            assert(ev0.subrange(0, 0) =~= Seq::<LoadEvent>::empty());
            assert(spec_load_chain(mid0, ev0.subrange(0, 0), *self));
        }
        let mut events = events;
        while events.len() > 0
            invariant
                self.wf(),
                events_ok(events@),
                tiles_extend(old(self).tiles@, self.tiles@),
                self.key@ == old(self).key@,
                self.roots@.len() >= old(self).roots@.len(),
                forall|j: int|
                    0 <= j < old(self).roots@.len() ==> #[trigger] self.roots@[j] == old(
                        self,
                    ).roots@[j],
                events@.len() <= ev0.len(),
                events@ == ev0.subrange(ev0.len() - events@.len(), ev0.len() as int),
                spec_root_walk(*old(self), mid0),
                spec_load_chain(mid0, ev0.subrange(0, ev0.len() - events@.len()), *self),
            decreases events@.len(),
        {
            let ghost done = ev0.len() - events@.len();
            let ghost pre = *self;
            let e = events.remove(0);
            let ghost ge = e;
            proof {
                assert(ge == ev0[done as int]);
                assert(events@ =~= ev0.subrange(ev0.len() - events@.len(), ev0.len() as int));
            }
            match e {
                LoadEvent::ClientArrived(c) => {
                    proof {
                        assert(ge->ClientArrived_0 == c);
                    }
                    self.apply_client(c);
                    proof {
                        assert(spec_event_step(pre, ge, *self));
                    }
                },
                LoadEvent::NodeArrived { parent, node } => {
                    proof {
                        assert(ge->NodeArrived_parent == parent && ge->NodeArrived_node == node);
                    }
                    self.apply_node(parent, &node);
                    proof {
                        assert(spec_event_step(pre, ge, *self));
                    }
                },
                LoadEvent::ContentArrived { tile, transforms } => {
                    proof {
                        assert(ge->ContentArrived_tile == tile && ge->ContentArrived_transforms
                            == transforms);
                    }
                    self.apply_content(tile, transforms);
                    proof {
                        assert(spec_event_step(pre, ge, *self));
                    }
                },
            }
            proof {
                lemma_load_chain_snoc(mid0, ev0.subrange(0, done as int), pre, ge, *self);
                assert(ev0.subrange(0, done as int).push(ge) =~= ev0.subrange(0, done + 1));
                assert(spec_load_chain(mid0, ev0.subrange(0, done + 1), *self));
            }
        }
        proof {
            assert(ev0.subrange(0, ev0.len() as int) =~= ev0);
            assert(spec_load_chain(mid0, ev0, *self));
        }
    }
}

} // verus!

//! On-wire node descriptors and the byte-level reasoning about content
//! addresses: a tile is keyed by its content address, and the traversal
//! tells mesh payloads from deferred hierarchy links by the marker the
//! address carries.

use vstd::prelude::*;
use crate::volume::{BoundingVolume, vol_bounded, spec_intersects, GEOM_LIMIT};

verus! {

/// The content reference of a node: the address of its payload.
#[derive(Debug)]
pub struct Content {
    pub uri: Vec<u8>,
}

/// A node of the bounding-volume hierarchy as the service describes it:
/// a volume, child nodes, an optional content address and the geometric
/// error of its own level of detail.
#[derive(Debug)]
pub struct Node {
    pub bounding: BoundingVolume,
    pub children: Vec<Node>,
    pub content: Option<Content>,
    pub err: i64,
}

/// A mesh payload found in the hierarchy: its volume, address and error.
#[derive(Debug)]
pub struct GLBInfo {
    pub bounding: BoundingVolume,
    pub url: Vec<u8>,
    pub err: i64,
}

/// The needle occurs in the haystack starting at position i.
pub open spec fn spec_match_at(h: Seq<u8>, n: Seq<u8>, i: int) -> bool {
    forall|j: int| 0 <= j < n.len() ==> h[i + j] == n[j]
}

/// The needle occurs somewhere in the haystack.
pub open spec fn spec_contains_sub(h: Seq<u8>, n: Seq<u8>) -> bool {
    exists|i: int| 0 <= i && i + n.len() <= h.len() && spec_match_at(h, n, i)
}

/// The bytes of ".glb", the marker of a mesh payload address.
pub open spec fn glb_marker() -> Seq<u8> {
    seq![46u8, 103u8, 108u8, 98u8]
}

/// The bytes of ".json", the marker of a deferred hierarchy link.
pub open spec fn json_marker() -> Seq<u8> {
    seq![46u8, 106u8, 115u8, 111u8, 110u8]
}

/// The address names a mesh payload.
pub open spec fn spec_is_glb(u: Seq<u8>) -> bool {
    spec_contains_sub(u, glb_marker())
}

/// The address names a deferred hierarchy link.
pub open spec fn spec_is_json(u: Seq<u8>) -> bool {
    spec_contains_sub(u, json_marker())
}

/// Whether the needle occurs at position i of the haystack.
pub(crate) fn match_at(hay: &Vec<u8>, needle: &Vec<u8>, i: usize) -> (r: bool)
    requires
        i + needle@.len() <= hay@.len(),
    ensures
        r == spec_match_at(hay@, needle@, i as int),
{
    let hl = hay.len();
    let mut j: usize = 0;
    while j < needle.len()
        invariant
            j <= needle@.len(),
            i + needle@.len() <= hay@.len(),
            hay@.len() == hl,
            forall|k: int| 0 <= k < j ==> hay@[i + k] == needle@[k],
        decreases needle@.len() - j,
    {
        if hay[i + j] != needle[j] {
            return false;
        }
        j = j + 1;
    }
    true
}

/// Byte-level substring search.
pub fn contains_sub(hay: &Vec<u8>, needle: &Vec<u8>) -> (r: bool)
    ensures
        r == spec_contains_sub(hay@, needle@),
{
    if needle.len() > hay.len() {
        return false;
    }
    let mut i: usize = 0;
    while i <= hay.len() - needle.len()
        invariant
            needle@.len() <= hay@.len(),
            i <= hay@.len() - needle@.len() + 1,
            forall|k: int| 0 <= k < i ==> !spec_match_at(hay@, needle@, k),
        decreases hay@.len() - i,
    {
        if match_at(hay, needle, i) {
            return true;
        }
        i = i + 1;
    }
    false
}

/// True when the address names a mesh payload.
pub fn uri_is_glb(uri: &Vec<u8>) -> (r: bool)
    ensures
        r == spec_is_glb(uri@),
{
    let needle: Vec<u8> = vec![46, 103, 108, 98];
    proof {
        assert(needle@ =~= glb_marker());
    }
    contains_sub(uri, &needle)
}

/// True when the address names a deferred hierarchy link.
pub fn uri_is_json(uri: &Vec<u8>) -> (r: bool)
    ensures
        r == spec_is_json(uri@),
{
    let needle: Vec<u8> = vec![46, 106, 115, 111, 110];
    proof {
        assert(needle@ =~= json_marker());
    }
    contains_sub(uri, &needle)
}

/// Equality of two byte strings, at the level of their contents.
pub fn bytes_eq(a: &Vec<u8>, b: &Vec<u8>) -> (r: bool)
    ensures
        r == (a@ == b@),
{
    if a.len() != b.len() {
        return false;
    }
    let mut i: usize = 0;
    while i < a.len()
        invariant
            a@.len() == b@.len(),
            i <= a@.len(),
            forall|k: int| 0 <= k < i ==> a@[k] == b@[k],
        decreases a@.len() - i,
    {
        if a[i] != b[i] {
            return false;
        }
        i = i + 1;
    }
    proof {
        assert(a@ =~= b@);
    }
    true
}

/// Copies a byte string; the verified stand-in for cloning a key.
pub fn bytes_copy(a: &Vec<u8>) -> (r: Vec<u8>)
    ensures
        r@ == a@,
{
    let mut r: Vec<u8> = Vec::new();
    let mut i: usize = 0;
    while i < a.len()
        invariant
            i <= a@.len(),
            r@.len() == i,
            forall|k: int| 0 <= k < i ==> r@[k] == a@[k],
        decreases a@.len() - i,
    {
        r.push(a[i]);
        i = i + 1;
    }
    proof {
        assert(r@ =~= a@);
    }
    r
}

/// Every volume and error of the tree stays within the working range.
pub open spec fn node_bounded(n: Node) -> bool
    decreases n,
{
    vol_bounded(n.bounding, GEOM_LIMIT as int) && -GEOM_LIMIT <= n.err <= GEOM_LIMIT
        && forall|i: int|
        0 <= i < n.children@.len() ==> node_bounded(#[trigger] n.children@[i])
}

/// The mesh-payload addresses a walk of the tree inserts, in insertion
/// order: a node's own address first when it names a mesh, then the
/// children's subtrees in order.
pub open spec fn node_glb_uris(n: Node) -> Seq<Seq<u8>>
    decreases n, 1int,
{
    (match n.content {
        Option::Some(c) => if spec_is_glb(c.uri@) {
            seq![c.uri@]
        } else {
            Seq::empty()
        },
        Option::None => Seq::empty(),
    }) + node_glb_uris_list(n.children@)
}

/// The mesh-payload addresses of a list of trees, in order.
pub open spec fn node_glb_uris_list(s: Seq<Node>) -> Seq<Seq<u8>>
    decreases s, 0int,
{
    if s.len() == 0 {
        Seq::empty()
    } else {
        node_glb_uris_list(s.drop_last()) + node_glb_uris(s.last())
    }
}

/// The volume and error each inserted tile starts with, in the same
/// insertion order as node_glb_uris.
pub open spec fn node_glb_info(n: Node) -> Seq<(BoundingVolume, i64)>
    decreases n, 1int,
{
    (match n.content {
        Option::Some(c) => if spec_is_glb(c.uri@) {
            seq![(n.bounding, n.err)]
        } else {
            Seq::empty()
        },
        Option::None => Seq::empty(),
    }) + node_glb_info_list(n.children@)
}

/// The volumes and errors of a list of trees, in order.
pub open spec fn node_glb_info_list(s: Seq<Node>) -> Seq<(BoundingVolume, i64)>
    decreases s, 0int,
{
    if s.len() == 0 {
        Seq::empty()
    } else {
        node_glb_info_list(s.drop_last()) + node_glb_info(s.last())
    }
}

/// The list of volume-and-error records splits at any position.
pub proof fn lemma_glb_info_list_decompose(s: Seq<Node>, k: int)
    requires
        0 <= k < s.len(),
    ensures
        node_glb_info_list(s) == node_glb_info_list(s.subrange(0, k)) + node_glb_info(s[k])
            + node_glb_info_list(s.subrange(k + 1, s.len() as int)),
    decreases s.len(),
{
    if k == s.len() - 1 {
        assert(s.drop_last() =~= s.subrange(0, k));
        assert(s.subrange(k + 1, s.len() as int) =~= Seq::<Node>::empty());
        assert(node_glb_info_list(s) =~= node_glb_info_list(s.subrange(0, k)) + node_glb_info(
            s[k],
        ) + node_glb_info_list(s.subrange(k + 1, s.len() as int)));
    } else {
        let d = s.drop_last();
        lemma_glb_info_list_decompose(d, k);
        assert(d.subrange(0, k) =~= s.subrange(0, k));
        assert(d[k] == s[k]);
        assert(s.subrange(k + 1, s.len() as int).drop_last() =~= d.subrange(
            k + 1,
            d.len() as int,
        ));
        assert(s.subrange(k + 1, s.len() as int).last() == s.last());
        assert(node_glb_info_list(s.subrange(k + 1, s.len() as int)) == node_glb_info_list(
            d.subrange(k + 1, d.len() as int),
        ) + node_glb_info(s.last()));
        assert(node_glb_info_list(s) =~= node_glb_info_list(s.subrange(0, k)) + node_glb_info(
            s[k],
        ) + node_glb_info_list(s.subrange(k + 1, s.len() as int)));
    }
}

/// The addresses a walk hands to the root list: the topmost mesh tiles,
/// reached through nodes without a mesh address only.
pub open spec fn node_root_uris(n: Node) -> Seq<Seq<u8>>
    decreases n, 1int,
{
    match n.content {
        Option::Some(c) => if spec_is_glb(c.uri@) {
            seq![c.uri@]
        } else {
            node_root_uris_list(n.children@)
        },
        Option::None => node_root_uris_list(n.children@),
    }
}

/// The root addresses of a list of trees, in order.
pub open spec fn node_root_uris_list(s: Seq<Node>) -> Seq<Seq<u8>>
    decreases s, 0int,
{
    if s.len() == 0 {
        Seq::empty()
    } else {
        node_root_uris_list(s.drop_last()) + node_root_uris(s.last())
    }
}

/// The table indexes the mesh children of a node get when its own tile
/// sits right before base: each mesh child's tile lands after the
/// subtrees of its preceding siblings.
pub open spec fn spec_child_indices(s: Seq<Node>, base: int) -> Seq<int>
    decreases s,
{
    if s.len() == 0 {
        Seq::empty()
    } else {
        spec_child_indices(s.drop_last(), base) + (match s.last().content {
            Option::Some(c) => if spec_is_glb(c.uri@) {
                seq![base + node_glb_uris_list(s.drop_last()).len()]
            } else {
                Seq::empty()
            },
            Option::None => Seq::empty(),
        })
    }
}

/// The deferred-link addresses among a node's direct children, in order.
pub open spec fn spec_child_link_uris(s: Seq<Node>) -> Seq<Seq<u8>>
    decreases s,
{
    if s.len() == 0 {
        Seq::empty()
    } else {
        spec_child_link_uris(s.drop_last()) + (match s.last().content {
            Option::Some(c) => if !spec_is_glb(c.uri@) {
                seq![c.uri@]
            } else {
                Seq::empty()
            },
            Option::None => Seq::empty(),
        })
    }
}

/// The list of mesh addresses splits at any position.
pub proof fn lemma_glb_list_decompose(s: Seq<Node>, k: int)
    requires
        0 <= k < s.len(),
    ensures
        node_glb_uris_list(s) == node_glb_uris_list(s.subrange(0, k)) + node_glb_uris(s[k])
            + node_glb_uris_list(s.subrange(k + 1, s.len() as int)),
    decreases s.len(),
{
    if k == s.len() - 1 {
        assert(s.drop_last() =~= s.subrange(0, k));
        assert(s.subrange(k + 1, s.len() as int) =~= Seq::<Node>::empty());
        assert(node_glb_uris_list(s) =~= node_glb_uris_list(s.subrange(0, k)) + node_glb_uris(
            s[k],
        ) + node_glb_uris_list(s.subrange(k + 1, s.len() as int)));
    } else {
        let d = s.drop_last();
        lemma_glb_list_decompose(d, k);
        assert(d.subrange(0, k) =~= s.subrange(0, k));
        assert(d[k] == s[k]);
        assert(s.subrange(k + 1, s.len() as int).drop_last() =~= d.subrange(
            k + 1,
            d.len() as int,
        ));
        assert(s.subrange(k + 1, s.len() as int).last() == s.last());
        assert(node_glb_uris_list(s.subrange(k + 1, s.len() as int)) == node_glb_uris_list(
            d.subrange(k + 1, d.len() as int),
        ) + node_glb_uris(s.last()));
        assert(node_glb_uris_list(s) =~= node_glb_uris_list(s.subrange(0, k)) + node_glb_uris(
            s[k],
        ) + node_glb_uris_list(s.subrange(k + 1, s.len() as int)));
    }
}

/// What a stored payload record says, down to its bytes.
pub open spec fn glb_view(g: GLBInfo) -> (BoundingVolume, Seq<u8>, i64) {
    (g.bounding, g.url@, g.err)
}

/// The mesh payloads of the local tree that overlap the query volume: a
/// node out of the volume ends its subtree; a node with children defers
/// to them; a leaf contributes its payload when it holds one.
pub open spec fn spec_glbs(n: Node, v: BoundingVolume) -> Seq<(BoundingVolume, Seq<u8>, i64)>
    decreases n, 1int,
{
    if !spec_intersects(n.bounding, v) {
        Seq::empty()
    } else if n.children@.len() > 0 {
        spec_glbs_list(n.children@, v)
    } else {
        match n.content {
            Option::Some(c) => if spec_is_json(c.uri@) {
                Seq::empty()
            } else if spec_is_glb(c.uri@) {
                seq![(n.bounding, c.uri@, n.err)]
            } else {
                Seq::empty()
            },
            Option::None => Seq::empty(),
        }
    }
}

/// The payloads of a list of nodes, in order.
pub open spec fn spec_glbs_list(s: Seq<Node>, v: BoundingVolume) -> Seq<
    (BoundingVolume, Seq<u8>, i64),
>
    decreases s, 0int,
{
    if s.len() == 0 {
        Seq::empty()
    } else {
        spec_glbs_list(s.drop_last(), v) + spec_glbs(s.last(), v)
    }
}

/// The deferred hierarchy links of the local tree that overlap the query
/// volume: the leaves whose addresses must be fetched before the search
/// can go on below them.
pub open spec fn spec_glb_links(n: Node, v: BoundingVolume) -> Seq<Seq<u8>>
    decreases n, 1int,
{
    if !spec_intersects(n.bounding, v) {
        Seq::empty()
    } else if n.children@.len() > 0 {
        spec_glb_links_list(n.children@, v)
    } else {
        match n.content {
            Option::Some(c) => if spec_is_json(c.uri@) {
                seq![c.uri@]
            } else {
                Seq::empty()
            },
            Option::None => Seq::empty(),
        }
    }
}

/// The deferred links of a list of nodes, in order.
pub open spec fn spec_glb_links_list(s: Seq<Node>, v: BoundingVolume) -> Seq<Seq<u8>>
    decreases s, 0int,
{
    if s.len() == 0 {
        Seq::empty()
    } else {
        spec_glb_links_list(s.drop_last(), v) + spec_glb_links(s.last(), v)
    }
}

impl Node {
    /// Collects the mesh payloads of this tree that overlap the query
    /// volume, and the deferred links the search must follow to go deeper:
    /// a caller fetches each link, and searches the fetched tree in turn.
    pub fn get_glbs(&self, v: &BoundingVolume, glbs: &mut Vec<GLBInfo>, pending: &mut Vec<Vec<u8>>)
        requires
            node_bounded(*self),
            vol_bounded(*v, GEOM_LIMIT as int),
        ensures
            final(glbs)@.map_values(|g: GLBInfo| glb_view(g)) == old(glbs)@.map_values(
                |g: GLBInfo| glb_view(g),
            ) + spec_glbs(*self, *v),
            final(pending)@.map_values(|u: Vec<u8>| u@) == old(pending)@.map_values(
                |u: Vec<u8>| u@,
            ) + spec_glb_links(*self, *v),
        decreases *self,
    {
        if !self.bounding.intersects(v) {
            proof {
                assert(glbs@.map_values(|g: GLBInfo| glb_view(g)) =~= glbs@.map_values(
                    |g: GLBInfo| glb_view(g),
                ) + spec_glbs(*self, *v));
                assert(pending@.map_values(|u: Vec<u8>| u@) =~= pending@.map_values(
                    |u: Vec<u8>| u@,
                ) + spec_glb_links(*self, *v));
            }
            return ;
        }
        if self.children.len() > 0 {
            let mut k: usize = 0;
            while k < self.children.len()
                invariant
                    node_bounded(*self),
                    vol_bounded(*v, GEOM_LIMIT as int),
                    spec_intersects(self.bounding, *v),
                    k <= self.children@.len(),
                    glbs@.map_values(|g: GLBInfo| glb_view(g)) == old(glbs)@.map_values(
                        |g: GLBInfo| glb_view(g),
                    ) + spec_glbs_list(self.children@.subrange(0, k as int), *v),
                    pending@.map_values(|u: Vec<u8>| u@) == old(pending)@.map_values(
                        |u: Vec<u8>| u@,
                    ) + spec_glb_links_list(self.children@.subrange(0, k as int), *v),
                decreases self.children@.len() - k,
            {
                self.children[k].get_glbs(v, glbs, pending);
                proof {
                    let sub1 = self.children@.subrange(0, k + 1);
                    assert(sub1.drop_last() =~= self.children@.subrange(0, k as int));
                    assert(sub1.last() == self.children@[k as int]);
                }
                k = k + 1;
            }
            proof {
                assert(self.children@.subrange(0, self.children@.len() as int)
                    =~= self.children@);
            }
            return ;
        }
        match &self.content {
            Option::Some(content) => {
                if uri_is_json(&content.uri) {
                    pending.push(bytes_copy(&content.uri));
                    proof {
                        assert(pending@.map_values(|u: Vec<u8>| u@) =~= old(
                            pending,
                        )@.map_values(|u: Vec<u8>| u@) + spec_glb_links(*self, *v));
                        assert(glbs@.map_values(|g: GLBInfo| glb_view(g)) =~= old(
                            glbs,
                        )@.map_values(|g: GLBInfo| glb_view(g)) + spec_glbs(*self, *v));
                    }
                } else if uri_is_glb(&content.uri) {
                    glbs.push(
                        GLBInfo {
                            bounding: self.bounding,
                            url: bytes_copy(&content.uri),
                            err: self.err,
                        },
                    );
                    proof {
                        assert(glbs@.map_values(|g: GLBInfo| glb_view(g)) =~= old(
                            glbs,
                        )@.map_values(|g: GLBInfo| glb_view(g)) + spec_glbs(*self, *v));
                        assert(pending@.map_values(|u: Vec<u8>| u@) =~= old(
                            pending,
                        )@.map_values(|u: Vec<u8>| u@) + spec_glb_links(*self, *v));
                    }
                } else {
                    proof {
                        assert(glbs@.map_values(|g: GLBInfo| glb_view(g)) =~= old(
                            glbs,
                        )@.map_values(|g: GLBInfo| glb_view(g)) + spec_glbs(*self, *v));
                        assert(pending@.map_values(|u: Vec<u8>| u@) =~= old(
                            pending,
                        )@.map_values(|u: Vec<u8>| u@) + spec_glb_links(*self, *v));
                    }
                }
            },
            Option::None => {
                proof {
                    assert(glbs@.map_values(|g: GLBInfo| glb_view(g)) =~= old(glbs)@.map_values(
                        |g: GLBInfo| glb_view(g),
                    ) + spec_glbs(*self, *v));
                    assert(pending@.map_values(|u: Vec<u8>| u@) =~= old(pending)@.map_values(
                        |u: Vec<u8>| u@,
                    ) + spec_glb_links(*self, *v));
                }
            },
        }
    }

    /// Checks node_bounded, so that an unverified caller can test a tree
    /// before handing it to the cache.
    pub fn check_bounded(&self) -> (r: bool)
        ensures
            r == node_bounded(*self),
        decreases *self,
    {
        if !(self.bounding.center.x >= -GEOM_LIMIT && self.bounding.center.x <= GEOM_LIMIT
            && self.bounding.center.y >= -GEOM_LIMIT && self.bounding.center.y <= GEOM_LIMIT
            && self.bounding.center.z >= -GEOM_LIMIT && self.bounding.center.z <= GEOM_LIMIT
            && self.bounding.x_axis.x >= -GEOM_LIMIT && self.bounding.x_axis.x <= GEOM_LIMIT
            && self.bounding.x_axis.y >= -GEOM_LIMIT && self.bounding.x_axis.y <= GEOM_LIMIT
            && self.bounding.x_axis.z >= -GEOM_LIMIT && self.bounding.x_axis.z <= GEOM_LIMIT
            && self.bounding.y_axis.x >= -GEOM_LIMIT && self.bounding.y_axis.x <= GEOM_LIMIT
            && self.bounding.y_axis.y >= -GEOM_LIMIT && self.bounding.y_axis.y <= GEOM_LIMIT
            && self.bounding.y_axis.z >= -GEOM_LIMIT && self.bounding.y_axis.z <= GEOM_LIMIT
            && self.bounding.z_axis.x >= -GEOM_LIMIT && self.bounding.z_axis.x <= GEOM_LIMIT
            && self.bounding.z_axis.y >= -GEOM_LIMIT && self.bounding.z_axis.y <= GEOM_LIMIT
            && self.bounding.z_axis.z >= -GEOM_LIMIT && self.bounding.z_axis.z <= GEOM_LIMIT
            && self.err >= -GEOM_LIMIT && self.err <= GEOM_LIMIT) {
            return false;
        }
        let mut i: usize = 0;
        while i < self.children.len()
            invariant
                i <= self.children@.len(),
                vol_bounded(self.bounding, GEOM_LIMIT as int),
                -GEOM_LIMIT <= self.err <= GEOM_LIMIT,
                forall|k: int| 0 <= k < i ==> #[trigger] node_bounded(self.children@[k]),
            decreases self.children@.len() - i,
        {
            if !self.children[i].check_bounded() {
                proof {
                    assert(!node_bounded(*self)) by {
                        if node_bounded(*self) {
                            assert(node_bounded(self.children@[i as int]));
                        }
                    }
                }
                return false;
            }
            i = i + 1;
        }
        proof {
            assert forall|k: int|
                0 <= k < self.children@.len() implies node_bounded(
                #[trigger] self.children@[k],
            ) by {
                assert(node_bounded(self.children@[k]));
            }
            assert(node_bounded(*self));
        }
        true
    }
}

} // verus!

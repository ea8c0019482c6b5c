//! The service client's state: the caller's key, the session token mined
//! out of the first content address of the dataset, and the root node.
//! Assembling request addresses and extracting the token are byte-level
//! logic and are verified here; moving bytes over the network is not this
//! crate's business.

use vstd::prelude::*;
use crate::geom::Vec3i;
use crate::volume::{BoundingVolume, vol_bounded, GEOM_LIMIT};
use crate::tiles::{
    Node, GLBInfo, spec_match_at, node_bounded, spec_glbs, spec_glb_links, glb_view,
};

verus! {

/// Why a client could not be built from a root document.
#[derive(Clone, Copy, Debug, PartialEq, Eq, Structural)]
pub enum ClientError {
    /// The root document does not reach a grandchild with content.
    MalformedRoot,
    /// The first content address carries no session parameter.
    MissingSession,
}

/// The client: key, session token and the root of the hierarchy.
pub struct Client {
    pub key: Vec<u8>,
    pub session: Vec<u8>,
    pub root: Node,
}

/// The byte of '?'.
pub const QMARK: u8 = 63;

/// The byte of '&'.
pub const AMP: u8 = 38;

/// The bytes of "session=", the query pair that carries the token.
pub open spec fn session_marker() -> Seq<u8> {
    seq![115u8, 101u8, 115u8, 115u8, 105u8, 111u8, 110u8, 61u8]
}

/// i is the first occurrence of c in u.
pub open spec fn first_index_of(u: Seq<u8>, c: u8, i: int) -> bool {
    0 <= i < u.len() && u[i] == c && forall|j: int| 0 <= j < i ==> u[j] != c
}

/// p starts a query pair: it stands right after the query mark at q or
/// right after a pair separator.
pub open spec fn pair_start_at(u: Seq<u8>, q: int, p: int) -> bool {
    q < p <= u.len() && (p == q + 1 || u[p - 1] == AMP)
}

/// A session pair starts at p.
pub open spec fn session_at(u: Seq<u8>, q: int, p: int) -> bool {
    pair_start_at(u, q, p) && p + 8 <= u.len() && spec_match_at(u, session_marker(), p)
}

/// e ends the value that starts at s: the bytes between are free of the
/// pair separator, and e sits on one or at the end.
pub open spec fn value_end(u: Seq<u8>, s: int, e: int) -> bool {
    s <= e <= u.len() && (forall|k: int| s <= k < e ==> u[k] != AMP) && (e == u.len() || u[e]
        == AMP)
}

/// The address carries a session parameter in its query.
pub open spec fn has_session(u: Seq<u8>) -> bool {
    exists|q: int, p: int| first_index_of(u, QMARK, q) && session_at(u, q, p)
}

/// v is the token of the last session pair of the address.
pub open spec fn is_session_value(u: Seq<u8>, v: Seq<u8>) -> bool {
    exists|q: int, p: int, e: int|
        #![trigger session_at(u, q, p), value_end(u, p + 8, e)]
        first_index_of(u, QMARK, q) && session_at(u, q, p) && (forall|p2: int|
            p < p2 ==> !session_at(u, q, p2)) && value_end(u, p + 8, e) && v == u.subrange(
            p + 8,
            e,
        )
}

/// Extracts the token of the last session pair of an address, if any.
pub fn extract_session(uri: &Vec<u8>) -> (r: Option<Vec<u8>>)
    ensures
        r is Some <==> has_session(uri@),
        r is Some ==> is_session_value(uri@, r->Some_0@),
{
    let n = uri.len();
    let mut q: usize = 0;
    while q < n && uri[q] != QMARK
        invariant
            n == uri@.len(),
            q <= n,
            forall|j: int| 0 <= j < q ==> uri@[j] != QMARK,
        decreases n - q,
    {
        q = q + 1;
    }
    if q == n {
        proof {
            assert forall|qq: int, p: int|
                !(first_index_of(uri@, QMARK, qq) && session_at(uri@, qq, p)) by {
                if first_index_of(uri@, QMARK, qq) {
                    assert(uri@[qq] == QMARK);
                }
            }
        }
        return None;
    }
    let marker: Vec<u8> = vec![115, 101, 115, 115, 105, 111, 110, 61];
    proof {
        assert(marker@ =~= session_marker());
        assert(first_index_of(uri@, QMARK, q as int));
    }
    let mut p: usize = q + 1;
    let mut best: usize = 0;
    let mut found: bool = false;
    while p < n
        invariant
            n == uri@.len(),
            marker@ == session_marker(),
            first_index_of(uri@, QMARK, q as int),
            q < p,
            p <= n,
            found ==> q < best && (best as int) < p && session_at(uri@, q as int, best as int),
            forall|p2: int|
                ((if found { best as int } else { q as int }) < p2 < p) ==> !session_at(
                    uri@,
                    q as int,
                    p2,
                ),
        decreases n - p,
    {
        let starts = p == q + 1 || uri[p - 1] == AMP;
        if starts && n - p >= 8 {
            if crate::tiles::match_at(uri, &marker, p) {
                best = p;
                found = true;
            }
        }
        proof {
            if !(starts && n - p >= 8 && spec_match_at(uri@, session_marker(), p as int)) {
                assert(!session_at(uri@, q as int, p as int));
            }
        }
        p = p + 1;
    }
    if !found {
        proof {
            assert forall|qq: int, pp: int|
                !(first_index_of(uri@, QMARK, qq) && session_at(uri@, qq, pp)) by {
                if first_index_of(uri@, QMARK, qq) && session_at(uri@, qq, pp) {
                    assert(qq == q as int);
                }
            }
        }
        return None;
    }
    let s = best + 8;
    let mut e: usize = s;
    while e < n && uri[e] != AMP
        invariant
            n == uri@.len(),
            s <= e <= n,
            forall|k: int| s <= k < e ==> uri@[k] != AMP,
        decreases n - e,
    {
        e = e + 1;
    }
    let mut v: Vec<u8> = Vec::new();
    let mut k: usize = s;
    while k < e
        invariant
            n == uri@.len(),
            s <= k <= e <= n,
            v@.len() == k - s,
            forall|j: int| 0 <= j < v@.len() ==> v@[j] == uri@[s + j],
        decreases e - k,
    {
        v.push(uri[k]);
        k = k + 1;
    }
    proof {
        assert(v@ =~= uri@.subrange(s as int, e as int));
        assert(value_end(uri@, (best + 8) as int, e as int));
        assert(session_at(uri@, q as int, best as int));
        assert(is_session_value(uri@, v@));
    }
    Some(v)
}

/// The bytes of the service address all requests go to.
pub open spec fn base_url() -> Seq<u8> {
    seq![
        104u8, 116u8, 116u8, 112u8, 115u8, 58u8, 47u8, 47u8, 116u8, 105u8, 108u8, 101u8, 46u8,
        103u8, 111u8, 111u8, 103u8, 108u8, 101u8, 97u8, 112u8, 105u8, 115u8, 46u8, 99u8, 111u8,
        109u8,
    ]
}

/// The key pair that every request carries: "key=".
pub open spec fn key_marker() -> Seq<u8> {
    seq![107u8, 101u8, 121u8, 61u8]
}

/// The separator and pair that carries the token on requests: "&session=".
pub open spec fn amp_session_marker() -> Seq<u8> {
    seq![38u8, 115u8, 101u8, 115u8, 115u8, 105u8, 111u8, 110u8, 61u8]
}

/// The full request address for a path: the service address, the path, the
/// key pair joined with the right separator, and the session pair when a
/// token is held.
pub open spec fn spec_get_url(path: Seq<u8>, key: Seq<u8>, session: Seq<u8>) -> Seq<u8> {
    let u = base_url() + path;
    let joined = if !(exists|i: int| 0 <= i < u.len() && u[i] == QMARK) {
        u + seq![QMARK] + key_marker() + key
    } else if u.len() > 0 && u[u.len() - 1] == QMARK {
        u + key_marker() + key
    } else {
        u + seq![AMP] + key_marker() + key
    };
    if session.len() > 0 {
        joined + amp_session_marker() + session
    } else {
        joined
    }
}

impl Default for Client {
    /// The client of a failed bootstrap: no session, an empty root. A cache
    /// holding it never loads and never renders, as a missing key demands.
    fn default() -> (r: Client)
        ensures
            r.key@.len() == 0,
            r.session@.len() == 0,
            r.root.children@.len() == 0,
            r.root.content is None,
    {
        Client {
            key: Vec::new(),
            session: Vec::new(),
            root: Node {
                bounding: BoundingVolume {
                    center: Vec3i { x: 0, y: 0, z: 0 },
                    x_axis: Vec3i { x: 0, y: 0, z: 0 },
                    y_axis: Vec3i { x: 0, y: 0, z: 0 },
                    z_axis: Vec3i { x: 0, y: 0, z: 0 },
                },
                children: Vec::new(),
                content: Option::None,
                err: 0,
            },
        }
    }
}

impl Client {
    /// Builds the client from the key and the fetched root document: walks
    /// to the first grandchild's content address and takes the session
    /// token from its query, as the service hands it out there.
    pub fn new(key: Vec<u8>, root: Node) -> (r: Result<Client, ClientError>)
        ensures
            r is Ok ==> {
                &&& root.children@.len() > 0
                &&& root.children@[0].children@.len() > 0
                &&& root.children@[0].children@[0].content is Some
                &&& has_session(root.children@[0].children@[0].content->Some_0.uri@)
                &&& r->Ok_0.key@ == key@
                &&& r->Ok_0.root == root
                &&& is_session_value(
                    root.children@[0].children@[0].content->Some_0.uri@,
                    r->Ok_0.session@,
                )
            },
            r == Err::<Client, ClientError>(ClientError::MalformedRoot) <==> !(
            root.children@.len() > 0 && root.children@[0].children@.len() > 0
                && root.children@[0].children@[0].content is Some),
            r == Err::<Client, ClientError>(ClientError::MissingSession) <==> (
            root.children@.len() > 0 && root.children@[0].children@.len() > 0
                && root.children@[0].children@[0].content is Some && !has_session(
                root.children@[0].children@[0].content->Some_0.uri@,
            )),
    {
        if root.children.len() == 0 {
            return Err(ClientError::MalformedRoot);
        }
        if root.children[0].children.len() == 0 {
            return Err(ClientError::MalformedRoot);
        }
        let session = match &root.children[0].children[0].content {
            Option::Some(content) => {
                match extract_session(&content.uri) {
                    Option::Some(s) => s,
                    Option::None => {
                        return Err(ClientError::MissingSession);
                    },
                }
            },
            Option::None => {
                return Err(ClientError::MalformedRoot);
            },
        };
        Ok(Client { key, session, root })
    }

    /// Searches the held hierarchy for mesh payloads overlapping the query
    /// volume. Returns the payloads found locally and the deferred links a
    /// caller must fetch and search in turn to finish the query.
    pub fn get_glbs(&self, v: &BoundingVolume) -> (r: (Vec<GLBInfo>, Vec<Vec<u8>>))
        requires
            node_bounded(self.root),
            vol_bounded(*v, GEOM_LIMIT as int),
        ensures
            r.0@.map_values(|g: GLBInfo| glb_view(g)) == spec_glbs(self.root, *v),
            r.1@.map_values(|u: Vec<u8>| u@) == spec_glb_links(self.root, *v),
    {
        let mut glbs: Vec<GLBInfo> = Vec::new();
        let mut pending: Vec<Vec<u8>> = Vec::new();
        proof {
            assert(glbs@.map_values(|g: GLBInfo| glb_view(g)) =~= Seq::empty());
            assert(pending@.map_values(|u: Vec<u8>| u@) =~= Seq::empty());
        }
        self.root.get_glbs(v, &mut glbs, &mut pending);
        proof {
            assert(glbs@.map_values(|g: GLBInfo| glb_view(g)) =~= spec_glbs(self.root, *v));
            assert(pending@.map_values(|u: Vec<u8>| u@) =~= spec_glb_links(self.root, *v));
        }
        (glbs, pending)
    }

    /// The request address for a path, with the key and, when one is held,
    /// the session token appended to its query. The values are appended
    /// verbatim, without percent-escaping: the service's keys and session
    /// tokens never hold bytes a query needs escaped.
    pub fn get_url(&self, path: &Vec<u8>) -> (r: Vec<u8>)
        ensures
            r@ == spec_get_url(path@, self.key@, self.session@),
    {
        let base: Vec<u8> = vec![
            104, 116, 116, 112, 115, 58, 47, 47, 116, 105, 108, 101, 46, 103, 111, 111, 103, 108,
            101, 97, 112, 105, 115, 46, 99, 111, 109,
        ];
        proof {
            assert(base@ =~= base_url());
        }
        let mut u: Vec<u8> = Vec::new();
        let mut i: usize = 0;
        while i < base.len()
            invariant
                i <= base@.len(),
                u@ =~= base@.subrange(0, i as int),
            decreases base@.len() - i,
        {
            u.push(base[i]);
            i = i + 1;
        }
        proof {
            assert(u@ =~= base@);
        }
        let mut i: usize = 0;
        while i < path.len()
            invariant
                i <= path@.len(),
                u@ =~= base@ + path@.subrange(0, i as int),
            decreases path@.len() - i,
        {
            u.push(path[i]);
            i = i + 1;
        }
        proof {
            assert(u@ =~= base_url() + path@);
        }
        let mut has_qmark = false;
        let mut i: usize = 0;
        while i < u.len()
            invariant
                i <= u@.len(),
                has_qmark == exists|j: int| 0 <= j < i && u@[j] == QMARK,
                u@ == base_url() + path@,
            decreases u@.len() - i,
        {
            if u[i] == QMARK {
                has_qmark = true;
            }
            i = i + 1;
        }
        if !has_qmark {
            u.push(QMARK);
        } else if u.len() > 0 && u[u.len() - 1] == QMARK {
        } else {
            u.push(AMP);
        }
        let km: Vec<u8> = vec![107, 101, 121, 61];
        proof {
            assert(km@ =~= key_marker());
        }
        let mut i: usize = 0;
        let ghost u1 = u@;
        while i < km.len()
            invariant
                i <= km@.len(),
                u@ =~= u1 + km@.subrange(0, i as int),
                km@ == key_marker(),
            decreases km@.len() - i,
        {
            u.push(km[i]);
            i = i + 1;
        }
        let mut i: usize = 0;
        let ghost u2 = u@;
        while i < self.key.len()
            invariant
                i <= self.key@.len(),
                u@ =~= u2 + self.key@.subrange(0, i as int),
            decreases self.key@.len() - i,
        {
            u.push(self.key[i]);
            i = i + 1;
        }
        proof {
            assert(u@ =~= u2 + self.key@);
        }
        if self.session.len() > 0 {
            let sm: Vec<u8> = vec![38, 115, 101, 115, 115, 105, 111, 110, 61];
            proof {
                assert(sm@ =~= amp_session_marker());
            }
            let mut i: usize = 0;
            let ghost u3 = u@;
            while i < sm.len()
                invariant
                    i <= sm@.len(),
                    u@ =~= u3 + sm@.subrange(0, i as int),
                    sm@ == amp_session_marker(),
                decreases sm@.len() - i,
            {
                u.push(sm[i]);
                i = i + 1;
            }
            let mut i: usize = 0;
            let ghost u4 = u@;
            while i < self.session.len()
                invariant
                    i <= self.session@.len(),
                    u@ =~= u4 + self.session@.subrange(0, i as int),
                decreases self.session@.len() - i,
            {
                u.push(self.session[i]);
                i = i + 1;
            }
            proof {
                assert(u@ =~= u4 + self.session@);
                assert(u@ =~= spec_get_url(path@, self.key@, self.session@));
            }
        } else {
            proof {
                assert(u@ =~= spec_get_url(path@, self.key@, self.session@));
            }
        }
        u
    }
}

} // verus!

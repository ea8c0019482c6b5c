use tilecore::cache::{check_event, render_tile, Action, ClientState, LoadEvent, TileCache, TileContentState};
use tilecore::client::{extract_session, Client, ClientError};
use tilecore::frustum::{extract_planes, Frustum, Plane};
use tilecore::matrix::{final_model_matrix, Mat4i};
use tilecore::tiles::{bytes_eq, contains_sub, uri_is_glb, uri_is_json, Content, Node};
use tilecore::view_state::{CullingVolume, ViewState};
use tilecore::volume::BoundingVolume;
use tilecore::Vec3i;

fn v(x: i64, y: i64, z: i64) -> Vec3i {
    Vec3i { x, y, z }
}

fn m16(a: [i64; 16]) -> Mat4i {
    Mat4i::from_cols_array(&a.to_vec())
}

fn bv(cx: i64, e: i64) -> BoundingVolume {
    BoundingVolume::new(v(cx, 0, 0), v(e, 0, 0), v(0, e, 0), v(0, 0, e))
}

fn leaf(uri: &[u8], cx: i64, e: i64, err: i64) -> Node {
    Node {
        bounding: bv(cx, e),
        children: vec![],
        content: Some(Content { uri: uri.to_vec() }),
        err,
    }
}

fn branch(children: Vec<Node>) -> Node {
    Node { bounding: bv(0, 1000), children, content: None, err: 0 }
}

fn perspective_projection() -> Mat4i {
    m16([
        2414, 0, 0, 0, //
        0, 2414, 0, 0, //
        0, 0, -1002, -1000, //
        0, 0, -2002, 0,
    ])
}

fn open_view(position: Vec3i) -> ViewState {
    let zero_plane = Plane { normal: v(0, 0, 0), d: 0 };
    let projection = perspective_projection();
    ViewState {
        frustum: Frustum {
            left: zero_plane,
            right: zero_plane,
            bottom: zero_plane,
            top: zero_plane,
            far: zero_plane,
        },
        planes: extract_planes(&projection),
        position,
        viewport_w: 1000,
        viewport_h: 1000,
        culling_volume: CullingVolume::new_matrix(&projection),
        projection,
    }
}

#[test]
fn substring_and_markers() {
    assert!(contains_sub(&b"abc.glb?x".to_vec(), &b".glb".to_vec()));
    assert!(!contains_sub(&b"abc.gl".to_vec(), &b".glb".to_vec()));
    assert!(contains_sub(&b"x".to_vec(), &b"".to_vec()));
    assert!(uri_is_glb(&b"/v1/tile.glb?session=s".to_vec()));
    assert!(!uri_is_glb(&b"/v1/tile.json".to_vec()));
    assert!(uri_is_json(&b"/v1/tile.json".to_vec()));
    assert!(bytes_eq(&b"abc".to_vec(), &b"abc".to_vec()));
    assert!(!bytes_eq(&b"abc".to_vec(), &b"abd".to_vec()));
}

#[test]
fn session_extraction() {
    assert_eq!(
        extract_session(&b"/t/x.glb?session=TOK&key=k".to_vec()),
        Some(b"TOK".to_vec())
    );
    // The last session pair wins, its value runs to the next separator.
    assert_eq!(
        extract_session(&b"/t/x.glb?session=a&session=bb".to_vec()),
        Some(b"bb".to_vec())
    );
    assert_eq!(extract_session(&b"/t/x.glb?key=k".to_vec()), None);
    assert_eq!(extract_session(&b"/t/x.glb".to_vec()), None);
    assert_eq!(extract_session(&b"/t/x.glb?session=".to_vec()), Some(b"".to_vec()));
}

#[test]
fn client_bootstrap_and_urls() {
    let root = branch(vec![branch(vec![leaf(b"/t/a.glb?session=SES", 100, 10, 5)])]);
    let client = Client::new(b"KEY".to_vec(), root).unwrap();
    assert_eq!(client.session, b"SES".to_vec());
    let url = client.get_url(&b"/v1/3dtiles/root.json?".to_vec());
    assert_eq!(
        url,
        b"https://tile.googleapis.com/v1/3dtiles/root.json?key=KEY&session=SES".to_vec()
    );
    let url2 = client.get_url(&b"/t/a.glb?p=1".to_vec());
    assert_eq!(
        url2,
        b"https://tile.googleapis.com/t/a.glb?p=1&key=KEY&session=SES".to_vec()
    );
    let bare = client.get_url(&b"/plain".to_vec());
    assert_eq!(
        bare,
        b"https://tile.googleapis.com/plain?key=KEY&session=SES".to_vec()
    );
}

#[test]
fn client_bootstrap_errors() {
    let no_kids = branch(vec![]);
    assert_eq!(
        Client::new(b"K".to_vec(), no_kids).err(),
        Some(ClientError::MalformedRoot)
    );
    let no_session = branch(vec![branch(vec![leaf(b"/t/a.glb", 0, 1, 0)])]);
    assert_eq!(
        Client::new(b"K".to_vec(), no_session).err(),
        Some(ClientError::MissingSession)
    );
}

#[test]
fn bootstrap_empty_key_renders_nothing() {
    // An empty key never bootstraps: render returns zero and issues no
    // command at all, so no request ever leaves the process.
    let mut cache = TileCache::new(b"".to_vec());
    cache.load(vec![]);
    let view = open_view(v(1000, 0, 0));
    let (count, actions) = cache.render(&view, false);
    assert_eq!(count, 0);
    assert!(actions.is_empty());
}

#[test]
fn bootstrap_fills_root_once() {
    // After the client resolves with a session, one load walks the root
    // document: here one mesh tile, entering both the table and the roots.
    let root = branch(vec![branch(vec![leaf(b"/t/a.glb?session=S", 100, 10, 5)])]);
    let client = Client::new(b"K".to_vec(), root).unwrap();
    let mut cache = TileCache::new(b"K".to_vec());
    cache.load(vec![LoadEvent::ClientArrived(client)]);
    assert_eq!(cache.tiles.len(), 1);
    assert_eq!(cache.roots, vec![0]);
    assert_eq!(cache.tiles[0].uri, b"/t/a.glb?session=S".to_vec());
    assert_eq!(cache.tiles[0].geometric_error, 5);
    assert!(cache.has_load_root);
    // A second load does not walk the document again.
    cache.load(vec![]);
    assert_eq!(cache.tiles.len(), 1);
    assert_eq!(cache.roots, vec![0]);
}

#[test]
fn fill_links_children_and_options() {
    let tree = branch(vec![Node {
        bounding: bv(100, 50),
        children: vec![leaf(b"/t/kid.glb", 100, 10, 1), leaf(b"/t/kid.json", 120, 10, 1)],
        content: Some(Content { uri: b"/t/parent.glb?session=S".to_vec() }),
        err: 9,
    }]);
    let client = Client::new(b"K".to_vec(), branch(vec![tree])).unwrap();
    let mut cache = TileCache::new(b"K".to_vec());
    cache.load(vec![LoadEvent::ClientArrived(client)]);
    // Parent first, then its mesh child; the link stays an option.
    assert_eq!(cache.tiles.len(), 2);
    assert_eq!(cache.roots, vec![0]);
    assert_eq!(cache.tiles[0].uri, b"/t/parent.glb?session=S".to_vec());
    assert_eq!(cache.tiles[0].children, vec![1]);
    assert_eq!(cache.tiles[0].child_options, vec![b"/t/kid.json".to_vec()]);
    assert_eq!(cache.tiles[1].uri, b"/t/kid.glb".to_vec());
    assert_eq!(cache.tiles[1].parent, Some(0));
}

#[test]
fn fill_keeps_first_tile_for_equal_keys() {
    // The same address twice: the first tile stands, no second entry.
    let tree = branch(vec![leaf(b"/t/x.glb", 0, 10, 1), leaf(b"/t/x.glb", 50, 10, 1)]);
    let mut cache = TileCache::new(b"K".to_vec());
    let client = Client {
        key: b"K".to_vec(),
        session: b"S".to_vec(),
        root: tree,
    };
    cache.load(vec![LoadEvent::ClientArrived(client)]);
    assert_eq!(cache.tiles.len(), 1);
    assert_eq!(cache.roots, vec![0]);
    assert_eq!(cache.tiles[0].bv.center, v(0, 0, 0));
}

fn one_tile_cache() -> TileCache {
    let mut cache = TileCache::new(b"K".to_vec());
    let client = Client {
        key: b"K".to_vec(),
        session: b"S".to_vec(),
        root: leaf(b"/t/a.glb", 100, 10, 1000),
    };
    cache.load(vec![LoadEvent::ClientArrived(client)]);
    assert_eq!(cache.tiles.len(), 1);
    cache
}

#[test]
fn expand_on_demand_once() {
    // A visible tile over the error budget with no stored children and one
    // deferred link: the first frame requests the link exactly once and
    // spends it; the next frame requests nothing more.
    let mut cache = one_tile_cache();
    cache.tiles[0].child_options = vec![b"/t/sub.json".to_vec()];
    let view = open_view(v(1000, 0, 0));
    let (count, actions) = cache.render(&view, false);
    assert_eq!(count, 1);
    assert_eq!(actions.len(), 2);
    assert_eq!(actions[0], Action::FetchContent { tile: 0 });
    assert_eq!(
        actions[1],
        Action::FetchNode { uri: b"/t/sub.json".to_vec(), parent: 0 }
    );
    assert!(cache.tiles[0].child_options.is_empty());
    assert_eq!(cache.tiles[0].content, TileContentState::Loading);
    // Next frame: the link is spent and the fetch is in flight.
    let (count2, actions2) = cache.render(&view, false);
    assert_eq!(count2, 1);
    assert!(actions2.is_empty());
}

#[test]
fn lazy_upload_and_draw() {
    // A content task resolving inside load turns the tile ready in that
    // same call; the next render draws exactly one mesh for it, with the
    // axis-swapped model matrix.
    let mut cache = one_tile_cache();
    let view = open_view(v(1000, 0, 0));
    let (_, actions) = cache.render(&view, false);
    assert_eq!(actions[0], Action::FetchContent { tile: 0 });
    assert_eq!(cache.tiles[0].content, TileContentState::Loading);
    let node_transform = m16([
        1, 2, 3, 4, //
        5, 6, 7, 8, //
        9, 10, 11, 12, //
        13, 14, 15, 16,
    ]);
    cache.load(vec![LoadEvent::ContentArrived {
        tile: 0,
        transforms: vec![node_transform],
    }]);
    match &cache.tiles[0].content {
        TileContentState::Ready(mats) => {
            assert_eq!(mats.len(), 1);
            assert_eq!(mats[0], final_model_matrix(&node_transform));
        },
        other => panic!("content not ready: {:?}", other),
    }
    let (count, actions2) = cache.render(&view, false);
    assert_eq!(count, 1);
    assert_eq!(actions2, vec![Action::DrawMesh { tile: 0, content: 0 }]);
}

#[test]
fn content_never_moves_backward() {
    // A stray late delivery cannot pull ready content back.
    let mut cache = one_tile_cache();
    let view = open_view(v(1000, 0, 0));
    let (_, _) = cache.render(&view, false);
    cache.load(vec![LoadEvent::ContentArrived { tile: 0, transforms: vec![] }]);
    assert_eq!(cache.tiles[0].content, TileContentState::Ready(vec![]));
    cache.load(vec![LoadEvent::ContentArrived { tile: 0, transforms: vec![m16([0; 16])] }]);
    assert_eq!(cache.tiles[0].content, TileContentState::Ready(vec![]));
}

#[test]
fn invisible_subtree_emits_nothing() {
    // A tile on the far hemisphere: no draw, no fetch, no state change,
    // for it or anything below it.
    let mut cache = one_tile_cache();
    cache.tiles[0].child_options = vec![b"/t/sub.json".to_vec()];
    let view = open_view(v(-1000, 0, 0));
    let (count, actions) = cache.render(&view, false);
    assert_eq!(count, 0);
    assert!(actions.is_empty());
    assert_eq!(cache.tiles[0].content, TileContentState::NotLoaded);
    assert_eq!(cache.tiles[0].child_options.len(), 1);
}

#[test]
fn refined_tile_not_drawn() {
    // A refined parent is not drawn that frame: only its child is.
    let mut cache = TileCache::new(b"K".to_vec());
    let tree = Node {
        bounding: bv(100, 50),
        children: vec![leaf(b"/t/kid.glb", 100, 10, 0)],
        content: Some(Content { uri: b"/t/parent.glb".to_vec() }),
        err: 1000,
    };
    let client = Client { key: b"K".to_vec(), session: b"S".to_vec(), root: tree };
    cache.load(vec![LoadEvent::ClientArrived(client)]);
    assert_eq!(cache.tiles.len(), 2);
    // Make both ready so draws are observable.
    cache.tiles[0].content = TileContentState::Loading;
    cache.tiles[1].content = TileContentState::Loading;
    cache.load(vec![
        LoadEvent::ContentArrived { tile: 0, transforms: vec![m16([0; 16])] },
        LoadEvent::ContentArrived { tile: 1, transforms: vec![m16([0; 16])] },
    ]);
    let view = open_view(v(1000, 0, 0));
    let (count, actions) = cache.render(&view, false);
    // The parent, with geometric error 1000 nearby, is refined; the child,
    // with zero error, meets the budget and is drawn alone.
    assert_eq!(count, 1);
    assert_eq!(actions, vec![Action::DrawMesh { tile: 1, content: 0 }]);
}

#[test]
fn splice_on_node_arrival() {
    // A fetched link document is walked and spliced under its parent.
    let mut cache = one_tile_cache();
    let sub = leaf(b"/t/deep.glb", 120, 5, 1);
    cache.load(vec![LoadEvent::NodeArrived { parent: 0, node: sub }]);
    assert_eq!(cache.tiles.len(), 2);
    assert_eq!(cache.tiles[0].children, vec![1]);
    assert_eq!(cache.tiles[1].uri, b"/t/deep.glb".to_vec());
    assert_eq!(cache.tiles[1].parent, Some(0));
    // The root list is untouched by a splice.
    assert_eq!(cache.roots, vec![0]);
}

#[test]
fn bounding_boxes_drawn_on_demand() {
    let mut cache = one_tile_cache();
    let view = open_view(v(1000, 0, 0));
    let (_, actions) = cache.render(&view, true);
    assert_eq!(actions.len(), 2);
    assert_eq!(actions[0], Action::FetchContent { tile: 0 });
    assert_eq!(actions[1], Action::DrawBox { tile: 0 });
}

#[test]
fn render_tile_skips_unknown_index() {
    let mut tiles = vec![];
    let mut counter = 0usize;
    let mut actions = vec![];
    let view = open_view(v(1000, 0, 0));
    render_tile(&mut tiles, 7, &view, &mut counter, &mut actions, 20, false);
    assert_eq!(counter, 0);
    assert!(actions.is_empty());
}

#[test]
fn glb_search_collects_and_defers() {
    let root = branch(vec![
        leaf(b"/t/hit.glb", 100, 10, 3),
        leaf(b"/t/far.glb", 100_000, 10, 3),
        leaf(b"/t/link.json", 110, 10, 3),
    ]);
    let client = Client { key: b"K".to_vec(), session: b"S".to_vec(), root };
    let query = bv(100, 50);
    let (glbs, pending) = client.get_glbs(&query);
    assert_eq!(glbs.len(), 1);
    assert_eq!(glbs[0].url, b"/t/hit.glb".to_vec());
    assert_eq!(glbs[0].err, 3);
    assert_eq!(pending, vec![b"/t/link.json".to_vec()]);
}

#[test]
fn client_state_set_once() {
    let mut cache = TileCache::new(b"K".to_vec());
    let first = Client { key: b"K".to_vec(), session: b"S".to_vec(), root: branch(vec![]) };
    let second = Client { key: b"K".to_vec(), session: b"T".to_vec(), root: branch(vec![]) };
    cache.load(vec![LoadEvent::ClientArrived(first), LoadEvent::ClientArrived(second)]);
    match &cache.client {
        ClientState::Ready(c) => assert_eq!(c.session, b"S".to_vec()),
        ClientState::Pending => panic!("client still pending"),
    }
}

#[test]
fn bounds_checkers_reject_out_of_range() {
    // A tree with a coordinate beyond the working range is refused by the
    // checker an unverified caller runs before handing data to the cache.
    let good = leaf(b"/t/a.glb", 100, 10, 1);
    assert!(good.check_bounded());
    let mut bad = leaf(b"/t/a.glb", 100, 10, 1);
    bad.bounding.center.x = 0x7000_0000_0000_0000;
    assert!(!bad.check_bounded());
    let mut deep = branch(vec![leaf(b"/t/a.glb", 100, 10, 1)]);
    deep.children[0].err = i64::MIN;
    assert!(!deep.check_bounded());
}

#[test]
fn event_checker_matches_event_kind() {
    let ok_mat = m16([0; 16]);
    assert!(check_event(&LoadEvent::ContentArrived { tile: 0, transforms: vec![ok_mat] }));
    let huge = m16([i64::MAX; 16]);
    assert!(!check_event(&LoadEvent::ContentArrived { tile: 0, transforms: vec![huge] }));
    let node = leaf(b"/t/a.glb", 1, 1, 1);
    assert!(check_event(&LoadEvent::NodeArrived { parent: 0, node }));
}

#[test]
fn refine_visits_every_child_in_order() {
    // A refined parent with two mesh children: both are visited as leaves,
    // in order, each drawn once, and the counter counts both.
    let mut cache = TileCache::new(b"K".to_vec());
    let tree = Node {
        bounding: bv(100, 50),
        children: vec![leaf(b"/t/kid1.glb", 80, 10, 0), leaf(b"/t/kid2.glb", 120, 10, 0)],
        content: Some(Content { uri: b"/t/parent.glb".to_vec() }),
        err: 1000,
    };
    let client = Client { key: b"K".to_vec(), session: b"S".to_vec(), root: tree };
    cache.load(vec![LoadEvent::ClientArrived(client)]);
    assert_eq!(cache.tiles.len(), 3);
    assert_eq!(cache.tiles[0].children, vec![1, 2]);
    cache.tiles[1].content = TileContentState::Loading;
    cache.tiles[2].content = TileContentState::Loading;
    cache.load(vec![
        LoadEvent::ContentArrived { tile: 1, transforms: vec![m16([0; 16])] },
        LoadEvent::ContentArrived { tile: 2, transforms: vec![m16([0; 16])] },
    ]);
    let view = open_view(v(1000, 0, 0));
    let (count, actions) = cache.render(&view, false);
    assert_eq!(count, 2);
    assert_eq!(
        actions,
        vec![
            Action::DrawMesh { tile: 1, content: 0 },
            Action::DrawMesh { tile: 2, content: 0 },
        ]
    );
    // The refined parent is untouched: still not loading, never drawn.
    assert_eq!(cache.tiles[0].content, TileContentState::NotLoaded);
}

use noded::compile::SceneNodeResponse;
use noded::graph::Graph;
use noded::node::{
    CollectionNode, InputMaterial, LambertianNode, MaterialNode, Node, NodeFilter, NodeId, PrimitiveNode, SceneNode,
    SphereNode, TextureNode, Vec3,
};
use noded::pin::NodePin;
use noded::scene::{Material, Scene};

fn gray() -> Vec3 {
    let v = 0.5f32.to_bits();
    Vec3 { x: v, y: v, z: v }
}

fn lambertian(texture: Option<NodeId>) -> MaterialNode {
    MaterialNode::Lambertian(LambertianNode { albedo: NodePin::new(gray()), texture: NodePin::new(texture) })
}

fn sphere(material: InputMaterial) -> Node {
    Node::Primitive(PrimitiveNode::Sphere(SphereNode {
        center: NodePin::new(Vec3 { x: 0, y: 0, z: 0 }),
        radius: NodePin::new(1.0f32.to_bits()),
        material: NodePin::new(material),
    }))
}

fn scene_of(g: &Graph, id: NodeId) -> &Scene {
    match g.get_node(id) {
        Some(Node::Scene(s)) => s.as_scene(),
        _ => panic!("not a scene node"),
    }
}

fn dirty_bits(g: &Graph, id: NodeId) -> u32 {
    match g.get_node(id) {
        Some(Node::Scene(s)) => s.dirty.bits(),
        _ => panic!("not a scene node"),
    }
}

fn pending(g: &Graph, id: NodeId) -> usize {
    scene_of(g, id).textures.iter().filter(|t| t.is_pending()).count()
}

#[test]
fn one_sphere_compiles_and_disconnects() {
    let mut g = Graph::new();
    let s = g.insert_node(sphere(InputMaterial::Internal(lambertian(None))));
    let scene = g.insert_node(Node::Scene(SceneNode::new()));
    let render = g.insert_node(Node::Other);
    g.connect_input(scene, render, 4);
    g.connect_input(s, scene, 0);
    assert_eq!(SceneNode::handle_recalculate(&mut g, scene), SceneNodeResponse::Recalculated);
    let compiled = scene_of(&g, scene);
    assert_eq!(compiled.spheres.len(), 1);
    assert_eq!(compiled.materials.len(), 1);
    assert!(matches!(compiled.materials[0], Material::Lambertian { albedo: 0 }));
    assert_eq!(compiled.textures.len(), 1);
    assert_eq!(compiled.textures[0].pixels, vec![gray()]);
    assert_eq!(compiled.spheres[0].radius, 1.0f32.to_bits());
    assert_eq!(compiled.spheres[0].material_idx, 0);

    g.disconnect_input(scene, 0);
    assert_eq!(SceneNode::handle_recalculate(&mut g, scene), SceneNodeResponse::Recalculated);
    assert_eq!(scene_of(&g, scene).spheres.len(), 0);
}

#[test]
fn fresh_scene_needs_two_compiles() {
    let mut g = Graph::new();
    let s = g.insert_node(sphere(InputMaterial::Internal(lambertian(None))));
    let mut node = SceneNode::new();
    node.data.set(Some(s));
    let scene = g.insert_node(Node::Scene(node));
    assert_eq!(dirty_bits(&g, scene), 0xffff_fffe);
    assert_eq!(SceneNode::handle_recalculate(&mut g, scene), SceneNodeResponse::Recalculated);
    assert_eq!(dirty_bits(&g, scene), 0xffff_ffff);
    assert_eq!(SceneNode::handle_recalculate(&mut g, scene), SceneNodeResponse::Recalculated);
    assert_eq!(dirty_bits(&g, scene), 0);
    assert_eq!(SceneNode::handle_recalculate(&mut g, scene), SceneNodeResponse::Nothing);
}

#[test]
fn second_compile_without_change_does_nothing() {
    let mut g = Graph::new();
    let s = g.insert_node(sphere(InputMaterial::Internal(lambertian(None))));
    let scene = g.insert_node(Node::Scene(SceneNode::new()));
    g.connect_input(s, scene, 0);
    assert_eq!(SceneNode::handle_recalculate(&mut g, scene), SceneNodeResponse::Recalculated);
    assert_eq!(dirty_bits(&g, scene), 0);
    assert_eq!(SceneNode::handle_recalculate(&mut g, scene), SceneNodeResponse::Nothing);
    assert_eq!(scene_of(&g, scene).spheres.len(), 1);
}

#[test]
fn texture_is_decoded_once() {
    let mut g = Graph::new();
    let tex = g.insert_node(Node::Texture(TextureNode {
        path: String::from("assets/moon.jpeg"),
        scale: NodePin::new(1.0f32.to_bits()),
    }));
    let mat = g.insert_node(Node::Material(lambertian(Some(tex))));
    let s = g.insert_node(sphere(InputMaterial::External(mat)));
    let scene = g.insert_node(Node::Scene(SceneNode::new()));
    g.connect_input(s, scene, 0);
    SceneNode::handle_recalculate(&mut g, scene);
    assert_eq!(pending(&g, scene), 1);
    assert_eq!(scene_of(&g, scene).textures.len(), 1);
    assert!(matches!(scene_of(&g, scene).materials[0], Material::Lambertian { albedo: 0 }));
    // the image is decoded once, outside the library
    let decoded = vec![gray(), gray()];
    if let Node::Scene(sn) = g.node_mut(scene) {
        sn.inner_scene.textures[0].width = 2;
        sn.inner_scene.textures[0].height = 1;
        sn.inner_scene.textures[0].pixels = decoded.clone();
    }
    // a change elsewhere marks the scene dirty through its subscription
    if let Node::Primitive(PrimitiveNode::Sphere(sp)) = g.node_mut(s) {
        sp.radius.set(2.0f32.to_bits());
    }
    g.notify_changed(s);
    assert_eq!(dirty_bits(&g, scene), 0xffff_ffff);
    assert_eq!(SceneNode::handle_recalculate(&mut g, scene), SceneNodeResponse::Recalculated);
    assert_eq!(pending(&g, scene), 0);
    assert_eq!(scene_of(&g, scene).textures[0].pixels, decoded);
    assert_eq!(scene_of(&g, scene).spheres[0].radius, 2.0f32.to_bits());
}

#[test]
fn shared_texture_is_stored_once() {
    let mut g = Graph::new();
    let t1 = g.insert_node(Node::Texture(TextureNode { path: String::from("a.png"), scale: NodePin::new(7) }));
    let t2 = g.insert_node(Node::Texture(TextureNode { path: String::from("a.png"), scale: NodePin::new(7) }));
    let m1 = g.insert_node(Node::Material(lambertian(Some(t1))));
    let m2 = g.insert_node(Node::Material(lambertian(Some(t2))));
    let s1 = g.insert_node(sphere(InputMaterial::External(m1)));
    let s2 = g.insert_node(sphere(InputMaterial::External(m2)));
    let mut c = CollectionNode::new();
    c.insert(0, s1);
    c.insert(1, s2);
    let coll = g.insert_node(Node::Collection(c));
    let scene = g.insert_node(Node::Scene(SceneNode::new()));
    g.connect_input(coll, scene, 0);
    SceneNode::handle_recalculate(&mut g, scene);
    let compiled = scene_of(&g, scene);
    assert_eq!(compiled.textures.len(), 1);
    assert_eq!(compiled.materials.len(), 2);
    assert_eq!(compiled.spheres.len(), 2);
    assert_eq!(compiled.spheres[0].material_idx, 0);
    assert_eq!(compiled.spheres[1].material_idx, 1);
}

#[test]
fn inline_materials_are_not_shared() {
    let mut g = Graph::new();
    let s1 = g.insert_node(sphere(InputMaterial::Internal(lambertian(None))));
    let s2 = g.insert_node(sphere(InputMaterial::Internal(lambertian(None))));
    let mut c = CollectionNode::new();
    c.insert(0, s1);
    c.insert(1, s2);
    let coll = g.insert_node(Node::Collection(c));
    let scene = g.insert_node(Node::Scene(SceneNode::new()));
    g.connect_input(coll, scene, 0);
    SceneNode::handle_recalculate(&mut g, scene);
    let compiled = scene_of(&g, scene);
    assert_eq!(compiled.materials.len(), 2);
    assert_eq!(compiled.textures.len(), 2);
}

#[test]
fn collect_orders_children_first_and_survives_cycles() {
    let mut g = Graph::new();
    let tex = g.insert_node(Node::Texture(TextureNode { path: String::from("t.png"), scale: NodePin::new(1) }));
    let mat = g.insert_node(Node::Material(lambertian(Some(tex))));
    let s = g.insert_node(sphere(InputMaterial::External(mat)));
    let coll = g.insert_node(Node::Collection(CollectionNode::new()));
    g.connect_input(s, coll, 0);
    g.connect_input(coll, coll, 1);
    g.connect_input(s, coll, 2);
    let order = g.collect(Some(coll), NodeFilter::scene_data());
    assert_eq!(order, vec![tex, mat, s, coll]);
}

#[test]
fn dropped_dependency_loses_subscription() {
    let mut g = Graph::new();
    let s1 = g.insert_node(sphere(InputMaterial::Internal(lambertian(None))));
    let s2 = g.insert_node(sphere(InputMaterial::Internal(lambertian(None))));
    let scene = g.insert_node(Node::Scene(SceneNode::new()));
    g.connect_input(s1, scene, 0);
    SceneNode::handle_recalculate(&mut g, scene);
    assert!(g.has_subscription(s1, scene, noded::subscription::Event::OnChange));
    g.connect_input(s2, scene, 0);
    SceneNode::handle_recalculate(&mut g, scene);
    assert!(!g.has_subscription(s1, scene, noded::subscription::Event::OnChange));
    assert!(g.has_subscription(s2, scene, noded::subscription::Event::OnChange));
    g.notify_changed(s1);
    assert_eq!(dirty_bits(&g, scene), 0);
}

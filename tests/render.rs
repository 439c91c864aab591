use noded::app_state::EditMode;
use noded::compile::SceneNodeResponse;
use noded::expression::{BinOp, UnOp};
use noded::flags::{can_connect, MATERIALS, MATERIAL_LAMBERT, RENDERS, RENDER_RAYTRACER, SCENE, TEXTURE};
use noded::graph::{EventMessage, EventResponse, Graph};
use noded::node::{
    InputMaterial, LambertianNode, MaterialNode, Node, NodeId, OutputNode, PrimitiveNode, RaytracerRenderNode,
    RenderNode, SceneNode, SphereNode, Vec3,
};
use noded::pin::NodePin;
use noded::render::SceneUpload;
use noded::scene::{gpu_materials, texel_buffer, texture_descriptors, Material, Scene, TextureData};
use noded::subscription::{Callback, Event};

fn sphere_node() -> Node {
    let v = 0.5f32.to_bits();
    Node::Primitive(PrimitiveNode::Sphere(SphereNode {
        center: NodePin::new(Vec3 { x: 0, y: 0, z: 0 }),
        radius: NodePin::new(1.0f32.to_bits()),
        material: NodePin::new(InputMaterial::Internal(MaterialNode::Lambertian(LambertianNode {
            albedo: NodePin::new(Vec3 { x: v, y: v, z: v }),
            texture: NodePin::new(None),
        }))),
    }))
}

#[test]
fn edit_mode_switches_back_and_forth() {
    let mut m = EditMode::Editing;
    assert_eq!(m.switch(), EditMode::View);
    assert_eq!(m, EditMode::View);
    assert_eq!(m.switch(), EditMode::Editing);
}

#[test]
fn operators_from_chars() {
    assert_eq!(BinOp::from_char('*'), Some(BinOp::Mul));
    assert_eq!(BinOp::from_char('x'), None);
    assert_eq!(UnOp::from_char('-'), Some(UnOp::Neg));
    assert!(BinOp::Div.binds_tighter(&BinOp::Sub));
    assert!(!BinOp::Add.binds_tighter(&BinOp::Mul));
}

#[test]
fn masks_decide_connections() {
    assert!(can_connect(MATERIAL_LAMBERT, MATERIALS));
    assert!(!can_connect(TEXTURE, MATERIALS));
    assert!(can_connect(RENDER_RAYTRACER, RENDERS));
    assert_eq!(OutputNode.inputs(), vec![RENDERS]);
    let r = Node::Render(RenderNode::Raytracer(RaytracerRenderNode::new(1024)));
    assert_eq!(r.outputs(), vec![RENDER_RAYTRACER]);
    assert_eq!(r.inputs()[4], SCENE);
}

#[test]
fn event_messages_reach_the_registry() {
    let mut g = Graph::new();
    let a = g.insert_node(Node::Other);
    let b = g.insert_node(Node::Other);
    let ask = EventMessage::HasSubscription { node_id: b, event: Event::OnChange };
    assert_eq!(g.handle_event(a, ask), Some(EventResponse::HasSubscription(false)));
    let sub = EventMessage::Subscribe { node_id: b, event: Event::OnChange, callback: Callback::MarkSceneDirty };
    assert_eq!(g.handle_event(a, sub), None);
    assert_eq!(g.handle_event(a, ask), Some(EventResponse::HasSubscription(true)));
    g.handle_event(a, EventMessage::Unsubscribe { node_id: b, event: Event::OnChange });
    assert_eq!(g.handle_event(a, ask), Some(EventResponse::HasSubscription(false)));
}

#[test]
fn stale_subscriber_is_dropped_on_notify() {
    let mut g = Graph::new();
    let a = g.insert_node(Node::Other);
    let not_scene = g.insert_node(Node::Other);
    g.subscribe(a, not_scene, Event::OnChange, Callback::MarkSceneDirty);
    g.notify_changed(a);
    assert!(!g.has_subscription(a, not_scene, Event::OnChange));
}

#[test]
fn render_node_uploads_compiled_then_stub() {
    let mut g = Graph::new();
    let s = g.insert_node(sphere_node());
    let scene = g.insert_node(Node::Scene(SceneNode::new()));
    let render = g.insert_node(Node::Render(RenderNode::Raytracer(RaytracerRenderNode::new(1024))));
    g.connect_input(s, scene, 0);
    g.connect_input(scene, render, 4);
    assert_eq!(RaytracerRenderNode::draw(&mut g, render), SceneUpload::Compiled(scene));
    assert_eq!(RaytracerRenderNode::draw(&mut g, render), SceneUpload::Unchanged);
    g.disconnect_input(render, 4);
    assert_eq!(RaytracerRenderNode::draw(&mut g, render), SceneUpload::Stub);
    assert_eq!(RaytracerRenderNode::draw(&mut g, render), SceneUpload::Unchanged);
    assert_eq!(SceneNode::handle_recalculate(&mut g, scene), SceneNodeResponse::Nothing);
}

#[test]
fn render_node_sampling_defaults_and_resets() {
    let mut g = Graph::new();
    let render = g.insert_node(Node::Render(RenderNode::Raytracer(RaytracerRenderNode::new(64))));
    if let Node::Render(RenderNode::Raytracer(r)) = g.node_mut(render) {
        r.num_samples_per_pixel.set(4);
        assert_eq!(r.sampling_params().num_samples_per_pixel, 4);
    }
    g.disconnect_input(render, 1);
    if let Some(Node::Render(RenderNode::Raytracer(r))) = g.get_node(render) {
        let p = r.sampling_params();
        assert_eq!((p.max_samples_per_pixel, p.num_samples_per_pixel, p.num_bounces), (256, 1, 8));
        assert_eq!(r.camera_id(), None);
    }
    let cam = g.insert_node(Node::Other);
    g.connect_input(cam, render, 3);
    if let Some(Node::Render(RenderNode::Raytracer(r))) = g.get_node(render) {
        assert_eq!(r.camera_id(), Some(cam));
    }
    assert_eq!(g.collect(Some(render), noded::node::NodeFilter::scene_data()), Vec::<NodeId>::new());
}

#[test]
fn stub_scene_has_two_spheres() {
    let stub = Scene::stub();
    assert_eq!(stub.spheres.len(), 2);
    assert_eq!(stub.materials.len(), 2);
    assert_eq!(stub.textures.len(), 1);
    assert_eq!(stub.light_indices(), vec![1]);
}

#[test]
fn gpu_materials_follow_descriptors() {
    let v = |x| Vec3 { x, y: x, z: x };
    let textures = vec![TextureData::solid(v(1)), TextureData::solid(v(2))];
    let d = texture_descriptors(&textures).unwrap();
    let mats = vec![
        Material::Metal { albedo: 1, fuzz: 0.4f32.to_bits() },
        Material::Checkerboard { even: 0, odd: 1 },
        Material::Dielectric { refraction_index: 1.5f32.to_bits() },
    ];
    let g = gpu_materials(&mats, &d);
    assert_eq!((g[0].id, g[0].desc1.offset, g[0].x), (1, 1, 0.4f32.to_bits()));
    assert_eq!((g[1].id, g[1].desc1.offset, g[1].desc2.offset), (3, 1, 0));
    assert_eq!((g[2].id, g[2].desc1.offset, g[2].x), (2, 0xffff_ffff, 1.5f32.to_bits()));
    assert_eq!(texel_buffer(&textures), vec![v(1), v(2)]);
}

#[test]
fn frames_need_a_wired_camera() {
    let mut g = Graph::new();
    let render = g.insert_node(Node::Render(RenderNode::Raytracer(RaytracerRenderNode::new(64))));
    let cam = g.insert_node(Node::Other);
    let wired = |g: &Graph| match g.get_node(render) {
        Some(Node::Render(RenderNode::Raytracer(r))) => r.camera_wired(g),
        _ => false,
    };
    assert!(!wired(&g));
    g.connect_input(cam, render, 3);
    assert!(wired(&g));
    g.disconnect_input(render, 3);
    assert!(!wired(&g));
}

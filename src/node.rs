use vstd::prelude::*;
use crate::dirty::SceneDirtyFlags;
use crate::flags;
use crate::progress::SamplingParams;
use crate::pin::NodePin;
use crate::scene::Scene;

verus! {

/// A stable handle to a node of the graph.
#[derive(Clone, Copy, Debug, PartialEq, Eq, Structural, Hash)]
pub struct NodeId(pub usize);

/// Three `f32` values, each held as its bit pattern: a point, a direction or a
/// linear colour.
#[derive(Clone, Copy, Debug, PartialEq, Eq, Structural, Hash)]
pub struct Vec3 {
    pub x: u32,
    pub y: u32,
    pub z: u32,
}

/// Bit pattern of the `f32` value 1.0.
pub const ONE_F32_BITS: u32 = 0x3f80_0000;

#[derive(Clone, Copy, Debug, PartialEq, Eq, Structural)]
pub struct MetalNode {
    pub albedo: NodePin<Vec3>,
    /// `f32` bits.
    pub fuzz: NodePin<u32>,
    pub texture: NodePin<Option<NodeId>>,
}

#[derive(Clone, Copy, Debug, PartialEq, Eq, Structural)]
pub struct DielectricNode {
    /// Index of refraction, `f32` bits.
    pub ior: NodePin<u32>,
}

#[derive(Clone, Copy, Debug, PartialEq, Eq, Structural)]
pub struct LambertianNode {
    pub albedo: NodePin<Vec3>,
    pub texture: NodePin<Option<NodeId>>,
}

#[derive(Clone, Copy, Debug, PartialEq, Eq, Structural)]
pub struct EmissiveNode {
    pub emit: NodePin<Vec3>,
    pub texture: NodePin<Option<NodeId>>,
}

#[derive(Clone, Copy, Debug, PartialEq, Eq, Structural)]
pub struct CheckerboardNode {
    pub even: NodePin<Vec3>,
    pub odd: NodePin<Vec3>,
}

#[derive(Clone, Copy, Debug, PartialEq, Eq, Structural)]
pub enum MaterialNode {
    Metal(MetalNode),
    Dielectric(DielectricNode),
    Lambertian(LambertianNode),
    Emissive(EmissiveNode),
    Checkerboard(CheckerboardNode),
}

/// The texture node a material reads, if it reads one.
pub open spec fn material_texture(m: MaterialNode) -> Option<NodeId> {
    match m {
        MaterialNode::Metal(n) => n.texture.effective(),
        MaterialNode::Dielectric(_) => None,
        MaterialNode::Lambertian(n) => n.texture.effective(),
        MaterialNode::Emissive(n) => n.texture.effective(),
        MaterialNode::Checkerboard(_) => None,
    }
}

impl MaterialNode {
    pub fn get_texture_node_id(&self) -> (r: Option<NodeId>)
        ensures
            r == material_texture(*self),
    {
        match self {
            MaterialNode::Metal(n) => n.texture.get(),
            MaterialNode::Dielectric(_) => None,
            MaterialNode::Lambertian(n) => n.texture.get(),
            MaterialNode::Emissive(n) => n.texture.get(),
            MaterialNode::Checkerboard(_) => None,
        }
    }
}

/// A sphere's material: written inline on the sphere, or read from a material node.
#[derive(Clone, Copy, Debug, PartialEq, Eq, Structural)]
pub enum InputMaterial {
    Internal(MaterialNode),
    External(NodeId),
}

#[derive(Clone, Copy, Debug, PartialEq, Eq, Structural)]
pub struct SphereNode {
    pub center: NodePin<Vec3>,
    /// `f32` bits.
    pub radius: NodePin<u32>,
    pub material: NodePin<InputMaterial>,
}

#[derive(Clone, Copy, Debug, PartialEq, Eq, Structural)]
pub enum PrimitiveNode {
    Sphere(SphereNode),
}

pub struct TextureNode {
    pub path: String,
    /// `f32` bits.
    pub scale: NodePin<u32>,
}

/// An ordered list of nodes gathered under one output.
pub struct CollectionNode {
    pub nodes: Vec<NodeId>,
    pub inputs: Vec<u64>,
}

impl CollectionNode {
    pub open spec fn wf(&self) -> bool {
        self.inputs@.len() == self.nodes@.len() + 1
    }

    pub fn new() -> (r: Self)
        ensures
            r.wf(),
            r.nodes@.len() == 0,
    {
        CollectionNode { nodes: Vec::new(), inputs: vec![flags::ALL] }
    }

    pub fn insert(&mut self, idx: usize, node: NodeId)
        requires
            old(self).wf(),
            idx <= old(self).nodes@.len(),
        ensures
            final(self).wf(),
            final(self).nodes@ == old(self).nodes@.insert(idx as int, node),
    {
        self.nodes.insert(idx, node);
        self.inputs.insert(idx, flags::ALL);
    }

    pub fn remove(&mut self, idx: usize)
        requires
            old(self).wf(),
            idx < old(self).nodes@.len(),
        ensures
            final(self).wf(),
            final(self).nodes@ == old(self).nodes@.remove(idx as int),
    {
        self.nodes.remove(idx);
        self.inputs.remove(idx);
    }

    pub fn to_node_ids(&self) -> (r: Vec<NodeId>)
        ensures
            r@ == self.nodes@,
    {
        let mut out: Vec<NodeId> = Vec::new();
        let mut i: usize = 0;
        while i < self.nodes.len()
            invariant
                0 <= i <= self.nodes@.len(),
                out@ == self.nodes@.take(i as int),
            decreases self.nodes@.len() - i,
        {
            out.push(self.nodes[i]);
            i += 1;
            assert(out@ == self.nodes@.take(i as int));
        }
        assert(self.nodes@.take(self.nodes@.len() as int) == self.nodes@);
        out
    }

    pub fn inputs(&self) -> (r: &[u64])
        ensures
            r@ == self.inputs@,
    {
        self.inputs.as_slice()
    }
}

/// The node that gathers primitives into a compiled scene.
pub struct SceneNode {
    pub data: NodePin<Option<NodeId>>,
    pub inner_scene: Scene,
    pub tracked_nodes: Vec<NodeId>,
    pub dirty: SceneDirtyFlags,
}

impl SceneNode {
    pub fn new() -> (r: Self)
        ensures
            r.data.effective() is None,
            r.dirty.is_init(),
            r.tracked_nodes@.len() == 0,
            r.inner_scene.spheres@.len() == 0,
            r.inner_scene.materials@.len() == 0,
            r.inner_scene.textures@.len() == 0,
    {
        SceneNode {
            data: NodePin::new(None),
            inner_scene: Scene::empty(),
            tracked_nodes: Vec::new(),
            dirty: SceneDirtyFlags::init(),
        }
    }

    pub fn as_scene(&self) -> (r: &Scene)
        ensures
            *r == self.inner_scene,
    {
        &self.inner_scene
    }

    /// A renderer was attached: the next compile must run in full.
    pub fn register_render(&mut self)
        ensures
            final(self).dirty.is_all(),
            final(self).data == old(self).data,
            final(self).inner_scene == old(self).inner_scene,
            final(self).tracked_nodes == old(self).tracked_nodes,
    {
        self.dirty = SceneDirtyFlags::all();
    }
}

/// The sink a render node is wired into.
#[derive(Clone, Copy, Debug, PartialEq, Eq, Structural)]
pub struct OutputNode;

impl OutputNode {
    pub fn inputs(&self) -> (r: Vec<u64>)
        ensures
            r@ == seq![flags::RENDERS],
    {
        vec![flags::RENDERS]
    }

    pub fn outputs(&self) -> (r: Vec<u64>)
        ensures
            r@.len() == 0,
    {
        Vec::new()
    }
}

/// The progressive ray tracer's node: sampling inputs, the camera and scene it
/// renders.
#[derive(Clone, Copy, Debug, PartialEq, Eq, Structural)]
pub struct RaytracerRenderNode {
    pub max_samples_per_pixel: NodePin<u32>,
    pub num_samples_per_pixel: NodePin<u32>,
    pub num_bounces: NodePin<u32>,
    pub camera: NodePin<Option<NodeId>>,
    pub scene: Option<NodeId>,
    pub max_viewport_resolution: u32,
    /// The scene input was cut and the placeholder scene is still to be shown.
    pub disconnect_scene: bool,
}

impl RaytracerRenderNode {
    pub fn new(max_viewport_resolution: u32) -> (r: Self)
        ensures
            r.max_samples_per_pixel.effective() == 256,
            r.num_samples_per_pixel.effective() == 1,
            r.num_bounces.effective() == 8,
            r.camera.effective() is None,
            r.scene is None,
            r.max_viewport_resolution == max_viewport_resolution,
            !r.disconnect_scene,
    {
        let sampling = SamplingParams::default();
        RaytracerRenderNode {
            max_samples_per_pixel: NodePin::new(sampling.max_samples_per_pixel),
            num_samples_per_pixel: NodePin::new(sampling.num_samples_per_pixel),
            num_bounces: NodePin::new(sampling.num_bounces),
            camera: NodePin::new(None),
            scene: None,
            max_viewport_resolution,
            disconnect_scene: false,
        }
    }

    pub fn camera_id(&self) -> (r: Option<NodeId>)
        ensures
            r == self.camera.effective(),
    {
        self.camera.get()
    }

    pub fn sampling_params(&self) -> (r: SamplingParams)
        ensures
            r == (SamplingParams {
                max_samples_per_pixel: self.max_samples_per_pixel.effective(),
                num_samples_per_pixel: self.num_samples_per_pixel.effective(),
                num_bounces: self.num_bounces.effective(),
            }),
    {
        SamplingParams {
            max_samples_per_pixel: self.max_samples_per_pixel.get(),
            num_samples_per_pixel: self.num_samples_per_pixel.get(),
            num_bounces: self.num_bounces.get(),
        }
    }

    pub fn inputs(&self) -> (r: Vec<u64>)
        ensures
            r@ == seq![
                flags::TYPICAL_NUMBER_INPUT,
                flags::TYPICAL_NUMBER_INPUT,
                flags::TYPICAL_NUMBER_INPUT,
                flags::CAMERA,
                flags::SCENE,
            ],
    {
        vec![
            flags::TYPICAL_NUMBER_INPUT,
            flags::TYPICAL_NUMBER_INPUT,
            flags::TYPICAL_NUMBER_INPUT,
            flags::CAMERA,
            flags::SCENE,
        ]
    }

    pub fn outputs(&self) -> (r: Vec<u64>)
        ensures
            r@ == seq![flags::RENDER_RAYTRACER],
    {
        vec![flags::RENDER_RAYTRACER]
    }
}

#[derive(Clone, Copy, Debug, PartialEq, Eq, Structural)]
pub enum RenderNode {
    Raytracer(RaytracerRenderNode),
}

/// A node of the graph. Nodes that only the editor reads (camera, value and
/// expression nodes) appear as `Other`.
pub enum Node {
    Material(MaterialNode),
    Texture(TextureNode),
    Primitive(PrimitiveNode),
    Collection(CollectionNode),
    Scene(SceneNode),
    Render(RenderNode),
    Output(OutputNode),
    Other,
}

impl MaterialNode {
    pub fn inputs(&self) -> (r: Vec<u64>)
        ensures
            r@ == match *self {
                MaterialNode::Metal(_) => seq![flags::TYPICAL_VECTOR_INPUT, flags::TYPICAL_NUMBER_INPUT, flags::TEXTURE],
                MaterialNode::Dielectric(_) => seq![flags::TYPICAL_NUMBER_INPUT],
                MaterialNode::Lambertian(_) => seq![flags::TYPICAL_VECTOR_INPUT, flags::TEXTURE],
                MaterialNode::Emissive(_) => seq![flags::TYPICAL_VECTOR_INPUT, flags::TEXTURE],
                MaterialNode::Checkerboard(_) => seq![flags::TYPICAL_VECTOR_INPUT, flags::TYPICAL_VECTOR_INPUT],
            },
    {
        match self {
            MaterialNode::Metal(_) => vec![flags::TYPICAL_VECTOR_INPUT, flags::TYPICAL_NUMBER_INPUT, flags::TEXTURE],
            MaterialNode::Dielectric(_) => vec![flags::TYPICAL_NUMBER_INPUT],
            MaterialNode::Lambertian(_) => vec![flags::TYPICAL_VECTOR_INPUT, flags::TEXTURE],
            MaterialNode::Emissive(_) => vec![flags::TYPICAL_VECTOR_INPUT, flags::TEXTURE],
            MaterialNode::Checkerboard(_) => vec![flags::TYPICAL_VECTOR_INPUT, flags::TYPICAL_VECTOR_INPUT],
        }
    }

    pub fn outputs(&self) -> (r: Vec<u64>)
        ensures
            r@ == seq![match *self {
                MaterialNode::Metal(_) => flags::MATERIAL_METAL,
                MaterialNode::Dielectric(_) => flags::MATERIAL_DIELECTRIC,
                MaterialNode::Lambertian(_) => flags::MATERIAL_LAMBERT,
                MaterialNode::Emissive(_) => flags::MATERIAL_EMISSIVE,
                MaterialNode::Checkerboard(_) => flags::MATERIAL_CHECKERBOARD,
            }],
    {
        match self {
            MaterialNode::Metal(_) => vec![flags::MATERIAL_METAL],
            MaterialNode::Dielectric(_) => vec![flags::MATERIAL_DIELECTRIC],
            MaterialNode::Lambertian(_) => vec![flags::MATERIAL_LAMBERT],
            MaterialNode::Emissive(_) => vec![flags::MATERIAL_EMISSIVE],
            MaterialNode::Checkerboard(_) => vec![flags::MATERIAL_CHECKERBOARD],
        }
    }
}

/// Input type masks of a node, one per input; nodes the library does not model
/// report none.
pub open spec fn input_masks(n: &Node) -> Seq<u64> {
    match n {
        Node::Material(m) => match *m {
            MaterialNode::Metal(_) => seq![flags::TYPICAL_VECTOR_INPUT, flags::TYPICAL_NUMBER_INPUT, flags::TEXTURE],
            MaterialNode::Dielectric(_) => seq![flags::TYPICAL_NUMBER_INPUT],
            MaterialNode::Lambertian(_) => seq![flags::TYPICAL_VECTOR_INPUT, flags::TEXTURE],
            MaterialNode::Emissive(_) => seq![flags::TYPICAL_VECTOR_INPUT, flags::TEXTURE],
            MaterialNode::Checkerboard(_) => seq![flags::TYPICAL_VECTOR_INPUT, flags::TYPICAL_VECTOR_INPUT],
        },
        Node::Texture(_) => seq![flags::TYPICAL_NUMBER_INPUT],
        Node::Primitive(_) => seq![flags::TYPICAL_VECTOR_INPUT, flags::TYPICAL_NUMBER_INPUT, flags::MATERIALS],
        Node::Collection(c) => c.inputs@,
        Node::Scene(_) => seq![flags::PRIMITIVES | flags::COLLECTION],
        Node::Render(_) => seq![
            flags::TYPICAL_NUMBER_INPUT,
            flags::TYPICAL_NUMBER_INPUT,
            flags::TYPICAL_NUMBER_INPUT,
            flags::CAMERA,
            flags::SCENE,
        ],
        Node::Output(_) => seq![flags::RENDERS],
        Node::Other => Seq::empty(),
    }
}

/// Output type masks of a node, one per output.
pub open spec fn output_masks(n: &Node) -> Seq<u64> {
    match n {
        Node::Material(m) => seq![match *m {
            MaterialNode::Metal(_) => flags::MATERIAL_METAL,
            MaterialNode::Dielectric(_) => flags::MATERIAL_DIELECTRIC,
            MaterialNode::Lambertian(_) => flags::MATERIAL_LAMBERT,
            MaterialNode::Emissive(_) => flags::MATERIAL_EMISSIVE,
            MaterialNode::Checkerboard(_) => flags::MATERIAL_CHECKERBOARD,
        }],
        Node::Texture(_) => seq![flags::TEXTURE | flags::STRING],
        Node::Primitive(_) => seq![flags::PRIMITIVE_SPHERE],
        Node::Collection(_) => seq![flags::COLLECTION],
        Node::Scene(_) => seq![flags::SCENE],
        Node::Render(_) => seq![flags::RENDER_RAYTRACER],
        Node::Output(_) => Seq::empty(),
        Node::Other => Seq::empty(),
    }
}

impl Node {
    pub fn inputs(&self) -> (r: Vec<u64>)
        ensures
            r@ == input_masks(self),
    {
        match self {
            Node::Material(m) => m.inputs(),
            Node::Texture(_) => vec![flags::TYPICAL_NUMBER_INPUT],
            Node::Primitive(_) => vec![flags::TYPICAL_VECTOR_INPUT, flags::TYPICAL_NUMBER_INPUT, flags::MATERIALS],
            Node::Collection(c) => {
                let mut out: Vec<u64> = Vec::new();
                let mut i: usize = 0;
                while i < c.inputs.len()
                    invariant
                        0 <= i <= c.inputs@.len(),
                        out@ == c.inputs@.take(i as int),
                    decreases c.inputs@.len() - i,
                {
                    out.push(c.inputs[i]);
                    i += 1;
                    assert(out@ == c.inputs@.take(i as int));
                }
                assert(c.inputs@.take(c.inputs@.len() as int) == c.inputs@);
                out
            },
            Node::Scene(_) => vec![flags::PRIMITIVES | flags::COLLECTION],
            Node::Render(RenderNode::Raytracer(r)) => r.inputs(),
            Node::Output(o) => o.inputs(),
            Node::Other => Vec::new(),
        }
    }

    pub fn outputs(&self) -> (r: Vec<u64>)
        ensures
            r@ == output_masks(self),
    {
        match self {
            Node::Material(m) => m.outputs(),
            Node::Texture(_) => vec![flags::TEXTURE | flags::STRING],
            Node::Primitive(_) => vec![flags::PRIMITIVE_SPHERE],
            Node::Collection(_) => vec![flags::COLLECTION],
            Node::Scene(_) => vec![flags::SCENE],
            Node::Render(RenderNode::Raytracer(r)) => r.outputs(),
            Node::Output(o) => o.outputs(),
            Node::Other => Vec::new(),
        }
    }
}

/// The nodes a node reads from, in input order.
pub open spec fn children(n: &Node) -> Seq<NodeId> {
    match n {
        Node::Material(m) => match material_texture(*m) {
            Some(t) => seq![t],
            None => Seq::empty(),
        },
        Node::Primitive(PrimitiveNode::Sphere(s)) => match s.material.effective() {
            InputMaterial::External(id) => seq![id],
            InputMaterial::Internal(_) => Seq::empty(),
        },
        Node::Collection(c) => c.nodes@,
        Node::Scene(s) => match s.data.effective() {
            Some(id) => seq![id],
            None => Seq::empty(),
        },
        Node::Render(RenderNode::Raytracer(r)) => match (r.camera.effective(), r.scene) {
            (Some(c), Some(sc)) => seq![c, sc],
            (Some(c), None) => seq![c],
            (None, Some(sc)) => seq![sc],
            (None, None) => Seq::empty(),
        },
        _ => Seq::empty(),
    }
}

pub fn children_of(n: &Node) -> (r: Vec<NodeId>)
    ensures
        r@ == children(n),
{
    match n {
        Node::Material(m) => match m.get_texture_node_id() {
            Some(t) => vec![t],
            None => Vec::new(),
        },
        Node::Primitive(PrimitiveNode::Sphere(s)) => match s.material.get() {
            InputMaterial::External(id) => vec![id],
            InputMaterial::Internal(_) => Vec::new(),
        },
        Node::Collection(c) => c.to_node_ids(),
        Node::Scene(s) => match s.data.get() {
            Some(id) => vec![id],
            None => Vec::new(),
        },
        Node::Render(RenderNode::Raytracer(r)) => match (r.camera.get(), r.scene) {
            (Some(c), Some(sc)) => vec![c, sc],
            (Some(c), None) => vec![c],
            (None, Some(sc)) => vec![sc],
            (None, None) => Vec::new(),
        },
        _ => Vec::new(),
    }
}

/// Which kinds of node a traversal keeps.
#[derive(Clone, Copy, Debug, PartialEq, Eq, Structural)]
pub struct NodeFilter {
    pub materials: bool,
    pub textures: bool,
    pub primitives: bool,
    pub collections: bool,
    pub scenes: bool,
    pub renders: bool,
    pub outputs: bool,
    pub others: bool,
}

pub open spec fn filter_accepts(f: NodeFilter, n: &Node) -> bool {
    match n {
        Node::Material(_) => f.materials,
        Node::Texture(_) => f.textures,
        Node::Primitive(_) => f.primitives,
        Node::Collection(_) => f.collections,
        Node::Scene(_) => f.scenes,
        Node::Render(_) => f.renders,
        Node::Output(_) => f.outputs,
        Node::Other => f.others,
    }
}

impl NodeFilter {
    pub open spec fn scene_data_spec() -> NodeFilter {
        NodeFilter {
            materials: true,
            textures: true,
            primitives: true,
            collections: true,
            scenes: false,
            renders: false,
            outputs: false,
            others: false,
        }
    }

    /// The nodes that contribute to a compiled scene.
    pub fn scene_data() -> (r: Self)
        ensures
            r == NodeFilter::scene_data_spec(),
    {
        NodeFilter {
            materials: true,
            textures: true,
            primitives: true,
            collections: true,
            scenes: false,
            renders: false,
            outputs: false,
            others: false,
        }
    }

    pub fn accepts(&self, n: &Node) -> (r: bool)
        ensures
            r == filter_accepts(*self, n),
    {
        match n {
            Node::Material(_) => self.materials,
            Node::Texture(_) => self.textures,
            Node::Primitive(_) => self.primitives,
            Node::Collection(_) => self.collections,
            Node::Scene(_) => self.scenes,
            Node::Render(_) => self.renders,
            Node::Output(_) => self.outputs,
            Node::Other => self.others,
        }
    }
}

} // verus!

use vstd::prelude::*;
use crate::dirty::SceneDirtyFlags;
use crate::graph::{children_first, reachable, Graph};
use crate::node::{
    children, filter_accepts, material_texture, InputMaterial, MaterialNode, Node, NodeFilter, NodeId, PrimitiveNode, SceneNode, SphereNode, Vec3,
    ONE_F32_BITS,
};
use crate::subscription::{has_entry, Callback, Event};
use crate::scene::{material_refs_ok, texture_matches, textures_unique, Material, Scene, Sphere, TextureData};

verus! {

pub open spec fn is_solid(t: TextureData, color: Vec3) -> bool {
    &&& t.width == 1
    &&& t.height == 1
    &&& t.pixels@ == seq![color]
    &&& t.key is None
    &&& t.scale == ONE_F32_BITS
}

/// The colours a material node turns into one-texel textures, in order: its
/// albedo or emission when no texture is wired, both squares of a checkerboard.
pub open spec fn solid_colors(m: MaterialNode, texture_id: Option<usize>) -> Seq<Vec3> {
    match m {
        MaterialNode::Metal(n) => if texture_id is Some {
            Seq::empty()
        } else {
            seq![n.albedo.effective()]
        },
        MaterialNode::Dielectric(_) => Seq::empty(),
        MaterialNode::Lambertian(n) => if texture_id is Some {
            Seq::empty()
        } else {
            seq![n.albedo.effective()]
        },
        MaterialNode::Emissive(n) => if texture_id is Some {
            Seq::empty()
        } else {
            seq![n.emit.effective()]
        },
        MaterialNode::Checkerboard(n) => seq![n.even.effective(), n.odd.effective()],
    }
}

/// The flat material of a node, when the scene already holds `n` textures and
/// the node's own colours are appended after them.
pub open spec fn material_spec(m: MaterialNode, texture_id: Option<usize>, n: nat) -> Material {
    let own = match texture_id {
        Some(t) => t,
        None => n as usize,
    };
    match m {
        MaterialNode::Metal(x) => Material::Metal { albedo: own, fuzz: x.fuzz.effective() },
        MaterialNode::Dielectric(x) => Material::Dielectric { refraction_index: x.ior.effective() },
        MaterialNode::Lambertian(_) => Material::Lambertian { albedo: own },
        MaterialNode::Emissive(_) => Material::Emissive { emit: own },
        MaterialNode::Checkerboard(_) => Material::Checkerboard { even: n as usize, odd: (n + 1) as usize },
    }
}

proof fn lemma_refs_ok_grow(m: Material, n: nat, n2: nat)
    requires
        material_refs_ok(m, n),
        n <= n2,
    ensures
        material_refs_ok(m, n2),
{
}

fn push_solid(textures: &mut Vec<TextureData>, color: Vec3) -> (r: usize)
    ensures
        r == old(textures)@.len(),
        final(textures)@.len() == old(textures)@.len() + 1,
        final(textures)@.take(old(textures)@.len() as int) == old(textures)@,
        is_solid(final(textures)@[r as int], color),
{
    textures.push(TextureData::solid(color));
    proof {
        assert(final(textures)@.take(old(textures)@.len() as int) =~= old(textures)@);
    }
    textures.len() - 1
}

impl Material {
    /// The flat material of a material node. A wired texture is used by index;
    /// otherwise the node's colours become one-texel textures appended to `textures`.
    pub fn from_node(
        material_node: &MaterialNode,
        texture_id: Option<usize>,
        textures: &mut Vec<TextureData>,
    ) -> (r: Material)
        ensures
            final(textures)@.len() == old(textures)@.len() + solid_colors(*material_node, texture_id).len(),
            final(textures)@.take(old(textures)@.len() as int) == old(textures)@,
            forall|i: int|
                0 <= i < solid_colors(*material_node, texture_id).len() ==> is_solid(
                    #[trigger] final(textures)@[old(textures)@.len() + i],
                    solid_colors(*material_node, texture_id)[i],
                ),
            r == material_spec(*material_node, texture_id, old(textures)@.len()),
    {
        let ghost t0 = textures@;
        match material_node {
            MaterialNode::Metal(n) => {
                let albedo = match texture_id {
                    Some(t) => t,
                    None => push_solid(textures, n.albedo.get()),
                };
                proof {
                    assert(textures@.take(t0.len() as int) =~= t0);
                }
                Material::Metal { albedo, fuzz: n.fuzz.get() }
            },
            MaterialNode::Dielectric(n) => {
                assert(textures@.take(t0.len() as int) =~= t0);
                Material::Dielectric { refraction_index: n.ior.get() }
            },
            MaterialNode::Lambertian(n) => {
                let albedo = match texture_id {
                    Some(t) => t,
                    None => push_solid(textures, n.albedo.get()),
                };
                proof {
                    assert(textures@.take(t0.len() as int) =~= t0);
                }
                Material::Lambertian { albedo }
            },
            MaterialNode::Emissive(n) => {
                let emit = match texture_id {
                    Some(t) => t,
                    None => push_solid(textures, n.emit.get()),
                };
                proof {
                    assert(textures@.take(t0.len() as int) =~= t0);
                }
                Material::Emissive { emit }
            },
            MaterialNode::Checkerboard(n) => {
                let even = push_solid(textures, n.even.get());
                let ghost t1 = textures@;
                let odd = push_solid(textures, n.odd.get());
                proof {
                    assert(textures@[t0.len() as int] == t1[t0.len() as int]) by {
                        assert(textures@.take(t1.len() as int)[t0.len() as int] == textures@[t0.len() as int]);
                    }
                    assert(textures@.take(t0.len() as int) =~= t0) by {
                        assert forall|k: int| 0 <= k < t0.len() implies textures@[k] == t0[k] by {
                            assert(textures@.take(t1.len() as int)[k] == textures@[k]);
                            assert(t1.take(t0.len() as int)[k] == t1[k]);
                        }
                    }
                }
                Material::Checkerboard { even, odd }
            },
        }
    }
}

impl Sphere {
    pub fn from_node(sphere_node: &SphereNode, material_idx: u32) -> (r: Sphere)
        ensures
            r == (Sphere {
                center: sphere_node.center.effective(),
                radius: sphere_node.radius.effective(),
                material_idx,
            }),
    {
        Sphere { center: sphere_node.center.get(), radius: sphere_node.radius.get(), material_idx }
    }
}

/// Whether a sphere's material can be found once the nodes in `done` have been
/// compiled: inline materials always, wired ones when their node came earlier.
pub open spec fn sphere_resolves(g: &Graph, done: Seq<NodeId>, s: SphereNode) -> bool {
    match s.material.effective() {
        InputMaterial::Internal(_) => true,
        InputMaterial::External(mid) => done.contains(mid) && g.contains(mid) && g.node(mid) is Material,
    }
}

/// The sphere nodes among `nodes` that make it into the flat scene, in order.
pub open spec fn compiled_spheres(g: &Graph, nodes: Seq<NodeId>) -> Seq<SphereNode>
    decreases nodes.len(),
{
    if nodes.len() == 0 {
        Seq::empty()
    } else {
        let rest = compiled_spheres(g, nodes.drop_last());
        let id = nodes.last();
        if g.contains(id) && g.node(id) is Primitive && sphere_resolves(
            g,
            nodes.drop_last(),
            g.node(id)->Primitive_0->Sphere_0,
        ) {
            rest.push(g.node(id)->Primitive_0->Sphere_0)
        } else {
            rest
        }
    }
}

/// The ids of the sphere nodes that make it into the flat scene, in order.
pub open spec fn compiled_sphere_ids(g: &Graph, nodes: Seq<NodeId>) -> Seq<NodeId>
    decreases nodes.len(),
{
    if nodes.len() == 0 {
        Seq::empty()
    } else {
        let rest = compiled_sphere_ids(g, nodes.drop_last());
        let id = nodes.last();
        if g.contains(id) && g.node(id) is Primitive && sphere_resolves(
            g,
            nodes.drop_last(),
            g.node(id)->Primitive_0->Sphere_0,
        ) {
            rest.push(id)
        } else {
            rest
        }
    }
}

/// `a` comes before `b` in `nodes`.
pub open spec fn precedes(nodes: Seq<NodeId>, a: NodeId, b: NodeId) -> bool {
    exists|i: int, j: int| 0 <= i < j < nodes.len() && #[trigger] nodes[i] == a && #[trigger] nodes[j] == b
}

/// The node whose material a compiled sphere uses: the sphere itself for an inline
/// material, else the material node it is wired to.
pub open spec fn material_owner(s: SphereNode, id: NodeId) -> NodeId {
    match s.material.effective() {
        InputMaterial::Internal(_) => id,
        InputMaterial::External(mid) => mid,
    }
}

/// A material's texture slot `t`: the texture of the wired texture node when that
/// node was compiled before `owner`, else a one-texel texture of the node's colour.
pub open spec fn slot_ok(
    g: &Graph,
    nodes: Seq<NodeId>,
    owner: NodeId,
    tex: Option<NodeId>,
    color: Vec3,
    t: usize,
    textures: Seq<TextureData>,
) -> bool {
    match tex {
        Some(tn) => if g.contains(tn) && g.node(tn) is Texture && precedes(nodes, tn, owner) {
            texture_matches(textures[t as int], g.node(tn)->Texture_0.path@, g.node(tn)->Texture_0.scale.effective())
        } else {
            is_solid(textures[t as int], color)
        },
        None => is_solid(textures[t as int], color),
    }
}

/// The textures a flat material reads are those its node asks for.
pub open spec fn texture_refs_ok(
    g: &Graph,
    nodes: Seq<NodeId>,
    owner: NodeId,
    n: MaterialNode,
    m: Material,
    textures: Seq<TextureData>,
) -> bool {
    match (m, n) {
        (Material::Lambertian { albedo }, MaterialNode::Lambertian(x)) => slot_ok(
            g,
            nodes,
            owner,
            x.texture.effective(),
            x.albedo.effective(),
            albedo,
            textures,
        ),
        (Material::Metal { albedo, .. }, MaterialNode::Metal(x)) => slot_ok(
            g,
            nodes,
            owner,
            x.texture.effective(),
            x.albedo.effective(),
            albedo,
            textures,
        ),
        (Material::Emissive { emit }, MaterialNode::Emissive(x)) => slot_ok(
            g,
            nodes,
            owner,
            x.texture.effective(),
            x.emit.effective(),
            emit,
            textures,
        ),
        (Material::Checkerboard { even, odd }, MaterialNode::Checkerboard(x)) => is_solid(
            textures[even as int],
            x.even.effective(),
        ) && is_solid(textures[odd as int], x.odd.effective()),
        (Material::Dielectric { .. }, MaterialNode::Dielectric(_)) => true,
        _ => false,
    }
}

proof fn lemma_texture_refs_grow(
    g: &Graph,
    nodes: Seq<NodeId>,
    owner: NodeId,
    n: MaterialNode,
    m: Material,
    t1: Seq<TextureData>,
    t2: Seq<TextureData>,
)
    requires
        texture_refs_ok(g, nodes, owner, n, m, t1),
        material_refs_ok(m, t1.len()),
        t1.len() <= t2.len(),
        t2.take(t1.len() as int) == t1,
    ensures
        texture_refs_ok(g, nodes, owner, n, m, t2),
{
    assert forall|k: int| 0 <= k < t1.len() implies t2[k] == #[trigger] t1[k] by {
        assert(t2.take(t1.len() as int)[k] == t2[k]);
    }
}

proof fn lemma_precedes_prefix(nodes: Seq<NodeId>, i: int, a: NodeId)
    requires
        nodes.no_duplicates(),
        0 <= i < nodes.len(),
    ensures
        precedes(nodes, a, nodes[i]) <==> nodes.take(i).contains(a),
{
    if nodes.take(i).contains(a) {
        let p = choose|p: int| 0 <= p < i && nodes.take(i)[p] == a;
        assert(nodes[p] == a);
        assert(precedes(nodes, a, nodes[i]));
    }
    if precedes(nodes, a, nodes[i]) {
        let (p, q) = choose|p: int, q: int| 0 <= p < q < nodes.len() && #[trigger] nodes[p] == a && #[trigger] nodes[q] == nodes[i];
        assert(q == i);
        assert(nodes.take(i)[p] == a);
    }
}

spec fn tex_entries_ok(g: &Graph, upto: Seq<NodeId>, ti: Seq<(NodeId, usize)>, textures: Seq<TextureData>) -> bool {
    forall|k: int|
        0 <= k < ti.len() ==> {
            let e = #[trigger] ti[k];
            &&& upto.contains(e.0)
            &&& g.contains(e.0)
            &&& g.node(e.0) is Texture
            &&& e.1 < textures.len()
            &&& texture_matches(
                textures[e.1 as int],
                g.node(e.0)->Texture_0.path@,
                g.node(e.0)->Texture_0.scale.effective(),
            )
        }
}

spec fn tex_complete(g: &Graph, upto: Seq<NodeId>, ti: Seq<(NodeId, usize)>) -> bool {
    forall|id: NodeId|
        upto.contains(id) && g.contains(id) && g.node(id) is Texture ==> exists|k: int|
            0 <= k < ti.len() && (#[trigger] ti[k]).0 == id
}

spec fn mats_read_ok(
    g: &Graph,
    nodes: Seq<NodeId>,
    mi: Seq<(NodeId, usize)>,
    materials: Seq<Material>,
    textures: Seq<TextureData>,
) -> bool {
    forall|j: int|
        0 <= j < mi.len() ==> texture_refs_ok(
            g,
            nodes,
            (#[trigger] mi[j]).0,
            g.node(mi[j].0)->Material_0,
            materials[mi[j].1 as int],
            textures,
        )
}

spec fn spheres_read_ok(
    g: &Graph,
    nodes: Seq<NodeId>,
    cs: Seq<SphereNode>,
    ids: Seq<NodeId>,
    spheres: Seq<Sphere>,
    materials: Seq<Material>,
    textures: Seq<TextureData>,
) -> bool {
    forall|k: int|
        0 <= k < spheres.len() && cs[k].material.effective() is Internal ==> texture_refs_ok(
            g,
            nodes,
            ids[k],
            sphere_material_source(g, cs[k]),
            materials[(#[trigger] spheres[k]).material_idx as int],
            textures,
        )
}

proof fn lemma_tex_entries_grow(
    g: &Graph,
    upto1: Seq<NodeId>,
    upto2: Seq<NodeId>,
    ti: Seq<(NodeId, usize)>,
    t1: Seq<TextureData>,
    t2: Seq<TextureData>,
)
    requires
        tex_entries_ok(g, upto1, ti, t1),
        forall|x: NodeId| upto1.contains(x) ==> upto2.contains(x),
        t1.len() <= t2.len(),
        t2.take(t1.len() as int) == t1,
    ensures
        tex_entries_ok(g, upto2, ti, t2),
{
    assert forall|k: int| 0 <= k < t1.len() implies t2[k] == #[trigger] t1[k] by {
        assert(t2.take(t1.len() as int)[k] == t2[k]);
    }
    assert forall|k: int| 0 <= k < ti.len() implies {
        let e = #[trigger] ti[k];
        &&& upto2.contains(e.0)
        &&& g.contains(e.0)
        &&& g.node(e.0) is Texture
        &&& e.1 < t2.len()
        &&& texture_matches(t2[e.1 as int], g.node(e.0)->Texture_0.path@, g.node(e.0)->Texture_0.scale.effective())
    } by {
        assert(t2[ti[k].1 as int] == t1[ti[k].1 as int]);
    }
}

proof fn lemma_reads_grow(
    g: &Graph,
    nodes: Seq<NodeId>,
    mi: Seq<(NodeId, usize)>,
    cs: Seq<SphereNode>,
    ids: Seq<NodeId>,
    spheres: Seq<Sphere>,
    m1: Seq<Material>,
    m2: Seq<Material>,
    t1: Seq<TextureData>,
    t2: Seq<TextureData>,
)
    requires
        mats_read_ok(g, nodes, mi, m1, t1),
        spheres_read_ok(g, nodes, cs, ids, spheres, m1, t1),
        forall|j: int| 0 <= j < mi.len() ==> (#[trigger] mi[j]).1 < m1.len(),
        forall|k: int| 0 <= k < spheres.len() ==> (#[trigger] spheres[k]).material_idx < m1.len(),
        forall|k: int| 0 <= k < m1.len() ==> material_refs_ok(#[trigger] m1[k], t1.len()),
        m1.len() <= m2.len(),
        m2.take(m1.len() as int) == m1,
        t1.len() <= t2.len(),
        t2.take(t1.len() as int) == t1,
    ensures
        mats_read_ok(g, nodes, mi, m2, t2),
        spheres_read_ok(g, nodes, cs, ids, spheres, m2, t2),
{
    assert forall|k: int| 0 <= k < m1.len() implies m2[k] == #[trigger] m1[k] by {
        assert(m2.take(m1.len() as int)[k] == m2[k]);
    }
    assert forall|j: int| 0 <= j < mi.len() implies texture_refs_ok(
        g,
        nodes,
        (#[trigger] mi[j]).0,
        g.node(mi[j].0)->Material_0,
        m2[mi[j].1 as int],
        t2,
    ) by {
        let q = mi[j].1 as int;
        assert(m2[q] == m1[q]);
        lemma_texture_refs_grow(g, nodes, mi[j].0, g.node(mi[j].0)->Material_0, m1[q], t1, t2);
    }
    assert forall|k: int|
        0 <= k < spheres.len() && cs[k].material.effective() is Internal implies texture_refs_ok(
        g,
        nodes,
        ids[k],
        sphere_material_source(g, cs[k]),
        m2[(#[trigger] spheres[k]).material_idx as int],
        t2,
    ) by {
        let q = spheres[k].material_idx as int;
        assert(m2[q] == m1[q]);
        lemma_texture_refs_grow(g, nodes, ids[k], sphere_material_source(g, cs[k]), m1[q], t1, t2);
    }
}

proof fn lemma_new_material_reads(
    g: &Graph,
    nodes: Seq<NodeId>,
    i: int,
    ti: Seq<(NodeId, usize)>,
    t_before: Seq<TextureData>,
    t_after: Seq<TextureData>,
    m: MaterialNode,
    tid: Option<usize>,
)
    requires
        nodes.no_duplicates(),
        0 <= i < nodes.len(),
        tex_entries_ok(g, nodes.take(i), ti, t_before),
        tex_complete(g, nodes.take(i), ti),
        material_texture(m) is None ==> tid is None,
        material_texture(m) is Some && tid is Some ==> has_pair(ti, material_texture(m)->Some_0, tid->Some_0),
        material_texture(m) is Some && tid is None ==> forall|k: int|
            0 <= k < ti.len() ==> (#[trigger] ti[k]).0 != material_texture(m)->Some_0,
        t_after.len() == t_before.len() + solid_colors(m, tid).len(),
        t_after.len() <= usize::MAX,
        t_after.take(t_before.len() as int) == t_before,
        forall|k: int|
            0 <= k < solid_colors(m, tid).len() ==> is_solid(
                #[trigger] t_after[t_before.len() + k],
                solid_colors(m, tid)[k],
            ),
    ensures
        texture_refs_ok(g, nodes, nodes[i], m, material_spec(m, tid, t_before.len()), t_after),
{
    let n = t_before.len() as int;
    let prefix = nodes.take(i);
    if material_texture(m) is Some {
        let tn = material_texture(m)->Some_0;
        lemma_precedes_prefix(nodes, i, tn);
        if tid is Some {
            let t = tid->Some_0;
            let j = choose|j: int| 0 <= j < ti.len() && #[trigger] ti[j] == (tn, t);
            assert(ti[j].1 < t_before.len());
            assert(t_after[t as int] == t_before[t as int]) by {
                assert(t_after.take(n)[t as int] == t_after[t as int]);
            }
            assert(prefix.contains(tn));
            assert(precedes(nodes, tn, nodes[i]));
            assert(texture_matches(
                t_after[t as int],
                g.node(tn)->Texture_0.path@,
                g.node(tn)->Texture_0.scale.effective(),
            ));
        } else {
            if prefix.contains(tn) && g.contains(tn) && g.node(tn) is Texture {
                let k = choose|k: int| 0 <= k < ti.len() && (#[trigger] ti[k]).0 == tn;
            }
            assert(!(g.contains(tn) && g.node(tn) is Texture && precedes(nodes, tn, nodes[i])));
            assert(is_solid(t_after[n + 0], solid_colors(m, tid)[0]));
        }
    } else {
        match m {
            MaterialNode::Checkerboard(_) => {
                assert(is_solid(t_after[n + 0], solid_colors(m, tid)[0]));
                assert(is_solid(t_after[n + 1], solid_colors(m, tid)[1]));
            },
            MaterialNode::Dielectric(_) => {},
            _ => {
                assert(is_solid(t_after[n + 0], solid_colors(m, tid)[0]));
            },
        }
    }
}

/// Each compiled sphere's material reads the textures its material node asks for.
pub open spec fn sphere_textures_ok(g: &Graph, nodes: Seq<NodeId>, scene: &Scene) -> bool {
    let cs = compiled_spheres(g, nodes);
    let ids = compiled_sphere_ids(g, nodes);
    forall|k: int|
        0 <= k < scene.spheres@.len() ==> texture_refs_ok(
            g,
            nodes,
            material_owner(cs[k], ids[k]),
            sphere_material_source(g, cs[k]),
            scene.materials@[(#[trigger] scene.spheres@[k]).material_idx as int],
            scene.textures@,
        )
}

proof fn lemma_texture_refs_same(
    g1: &Graph,
    g2: &Graph,
    skip: NodeId,
    nodes: Seq<NodeId>,
    owner: NodeId,
    n: MaterialNode,
    m: Material,
    t: Seq<TextureData>,
)
    requires
        forall|id: NodeId| #[trigger] g1.contains(id) == g2.contains(id),
        forall|id: NodeId| g1.contains(id) && id != skip ==> #[trigger] g1.node(id) == g2.node(id),
        g1.contains(skip) ==> g1.node(skip) is Scene && g2.node(skip) is Scene,
    ensures
        texture_refs_ok(g1, nodes, owner, n, m, t) == texture_refs_ok(g2, nodes, owner, n, m, t),
{
    match material_texture(n) {
        Some(tn) => {
            if g1.contains(tn) && tn != skip {
                assert(g1.node(tn) == g2.node(tn));
            }
        },
        None => {},
    }
}

/// Whether a material node's texture pin names a texture node among `done`.
pub open spec fn texture_resolves(g: &Graph, done: Seq<NodeId>, m: MaterialNode) -> bool {
    match material_texture(m) {
        Some(tn) => done.contains(tn) && g.contains(tn) && g.node(tn) is Texture,
        None => false,
    }
}

/// How many one-texel textures a material node adds.
pub open spec fn solids_of(m: MaterialNode, resolved: bool) -> nat {
    solid_colors(m, if resolved { Some(0usize) } else { None }).len()
}

/// Some texture node among `done` has this path and scale.
pub open spec fn key_seen(g: &Graph, done: Seq<NodeId>, path: Seq<char>, scale: u32) -> bool {
    exists|k: int|
        0 <= k < done.len() && g.contains(#[trigger] done[k]) && g.node(done[k]) is Texture && g.node(
            done[k],
        )->Texture_0.path@ == path && g.node(done[k])->Texture_0.scale.effective() == scale
}

/// Flat materials compiled from `nodes`: one per material node, one per sphere
/// with an inline material; other nodes add none.
pub open spec fn material_count(g: &Graph, nodes: Seq<NodeId>) -> nat
    decreases nodes.len(),
{
    if nodes.len() == 0 {
        0
    } else {
        let id = nodes.last();
        material_count(g, nodes.drop_last()) + if !g.contains(id) {
            0nat
        } else {
            match g.node(id) {
                Node::Material(_) => 1nat,
                Node::Primitive(PrimitiveNode::Sphere(sp)) => match sp.material.effective() {
                    InputMaterial::Internal(_) => 1nat,
                    InputMaterial::External(_) => 0nat,
                },
                _ => 0nat,
            }
        }
    }
}

/// Textures compiled from `nodes`: one per distinct image (path and scale), plus
/// the one-texel textures of materials (inline ones included) whose texture pin
/// names no texture node before them; other nodes add none.
pub open spec fn texture_count(g: &Graph, nodes: Seq<NodeId>) -> nat
    decreases nodes.len(),
{
    if nodes.len() == 0 {
        0
    } else {
        let id = nodes.last();
        let done = nodes.drop_last();
        texture_count(g, done) + if !g.contains(id) {
            0nat
        } else {
            match g.node(id) {
                Node::Texture(t) => if key_seen(g, done, t.path@, t.scale.effective()) {
                    0nat
                } else {
                    1nat
                },
                Node::Material(m) => solids_of(m, texture_resolves(g, done, m)),
                Node::Primitive(PrimitiveNode::Sphere(sp)) => match sp.material.effective() {
                    InputMaterial::Internal(mn) => solids_of(mn, texture_resolves(g, done, mn)),
                    InputMaterial::External(_) => 0nat,
                },
                _ => 0nat,
            }
        }
    }
}

/// Every image texture is that of some texture node among `nodes`.
pub open spec fn images_from_nodes(g: &Graph, nodes: Seq<NodeId>, textures: Seq<TextureData>) -> bool {
    forall|t: int|
        0 <= t < textures.len() && (#[trigger] textures[t]).key is Some ==> key_seen(
            g,
            nodes,
            textures[t].key->Some_0@,
            textures[t].scale,
        )
}

proof fn lemma_solids_len(m: MaterialNode, tid: Option<usize>, resolved: bool)
    requires
        tid is Some <==> resolved,
    ensures
        solid_colors(m, tid).len() == solids_of(m, resolved),
{
}

proof fn lemma_key_seen_grow(g: &Graph, done: Seq<NodeId>, more: Seq<NodeId>, path: Seq<char>, scale: u32)
    requires
        key_seen(g, done, path, scale),
        done.len() <= more.len(),
        more.take(done.len() as int) == done,
    ensures
        key_seen(g, more, path, scale),
{
    let k = choose|k: int|
        0 <= k < done.len() && g.contains(#[trigger] done[k]) && g.node(done[k]) is Texture && g.node(
            done[k],
        )->Texture_0.path@ == path && g.node(done[k])->Texture_0.scale.effective() == scale;
    assert(more.take(done.len() as int)[k] == more[k]);
}

proof fn lemma_images_grow(
    g: &Graph,
    prefix: Seq<NodeId>,
    next: Seq<NodeId>,
    t1: Seq<TextureData>,
    t2: Seq<TextureData>,
)
    requires
        images_from_nodes(g, prefix, t1),
        prefix.len() <= next.len(),
        next.take(prefix.len() as int) == prefix,
        t1.len() <= t2.len(),
        t2.take(t1.len() as int) == t1,
        forall|k: int|
            t1.len() <= k < t2.len() && (#[trigger] t2[k]).key is Some ==> key_seen(
                g,
                next,
                t2[k].key->Some_0@,
                t2[k].scale,
            ),
    ensures
        images_from_nodes(g, next, t2),
{
    assert forall|t: int| 0 <= t < t2.len() && (#[trigger] t2[t]).key is Some implies key_seen(
        g,
        next,
        t2[t].key->Some_0@,
        t2[t].scale,
    ) by {
        if t < t1.len() {
            assert(t2.take(t1.len() as int)[t] == t2[t]);
            lemma_key_seen_grow(g, prefix, next, t1[t].key->Some_0@, t1[t].scale);
        }
    }
}

proof fn lemma_tid_resolves(
    g: &Graph,
    prefix: Seq<NodeId>,
    ti: Seq<(NodeId, usize)>,
    textures: Seq<TextureData>,
    m: MaterialNode,
    tid: Option<usize>,
)
    requires
        tex_entries_ok(g, prefix, ti, textures),
        tex_complete(g, prefix, ti),
        material_texture(m) is None ==> tid is None,
        material_texture(m) is Some && tid is Some ==> has_pair(ti, material_texture(m)->Some_0, tid->Some_0),
        material_texture(m) is Some && tid is None ==> forall|k: int|
            0 <= k < ti.len() ==> (#[trigger] ti[k]).0 != material_texture(m)->Some_0,
    ensures
        tid is Some <==> texture_resolves(g, prefix, m),
{
    if material_texture(m) is Some {
        let tn = material_texture(m)->Some_0;
        if tid is Some {
            let j = choose|j: int| 0 <= j < ti.len() && #[trigger] ti[j] == (tn, tid->Some_0);
            assert(ti[j].0 == tn);
        } else if prefix.contains(tn) && g.contains(tn) && g.node(tn) is Texture {
            let k = choose|k: int| 0 <= k < ti.len() && (#[trigger] ti[k]).0 == tn;
        }
    }
}

/// Two graphs that hold the same nodes, but for one scene node, compile the same counts.
proof fn lemma_counts_same_nodes(g1: &Graph, g2: &Graph, skip: NodeId, nodes: Seq<NodeId>)
    requires
        forall|id: NodeId| #[trigger] g1.contains(id) == g2.contains(id),
        forall|id: NodeId| g1.contains(id) && id != skip ==> #[trigger] g1.node(id) == g2.node(id),
        g1.contains(skip) ==> g1.node(skip) is Scene && g2.node(skip) is Scene,
    ensures
        material_count(g1, nodes) == material_count(g2, nodes),
        texture_count(g1, nodes) == texture_count(g2, nodes),
        forall|path: Seq<char>, scale: u32| key_seen(g1, nodes, path, scale) == key_seen(g2, nodes, path, scale),
    decreases nodes.len(),
{
    if nodes.len() > 0 {
        let done = nodes.drop_last();
        lemma_counts_same_nodes(g1, g2, skip, done);
        let id = nodes.last();
        if g1.contains(id) && id != skip {
            assert(g1.node(id) == g2.node(id));
            match g1.node(id) {
                Node::Material(m) => {
                    if let Some(tn) = material_texture(m) {
                        if g1.contains(tn) && tn != skip {
                            assert(g1.node(tn) == g2.node(tn));
                        }
                    }
                },
                Node::Primitive(PrimitiveNode::Sphere(sp)) => {
                    if let InputMaterial::Internal(mn) = sp.material.effective() {
                        if let Some(tn) = material_texture(mn) {
                            if g1.contains(tn) && tn != skip {
                                assert(g1.node(tn) == g2.node(tn));
                            }
                        }
                    }
                },
                _ => {},
            }
        }
        assert forall|path: Seq<char>, scale: u32| key_seen(g1, nodes, path, scale) == key_seen(g2, nodes, path, scale) by {
            if key_seen(g1, nodes, path, scale) {
                let k = choose|k: int|
                    0 <= k < nodes.len() && g1.contains(#[trigger] nodes[k]) && g1.node(nodes[k]) is Texture && g1.node(
                        nodes[k],
                    )->Texture_0.path@ == path && g1.node(nodes[k])->Texture_0.scale.effective() == scale;
                assert(nodes[k] != skip);
                assert(g1.node(nodes[k]) == g2.node(nodes[k]));
            }
            if key_seen(g2, nodes, path, scale) {
                let k = choose|k: int|
                    0 <= k < nodes.len() && g2.contains(#[trigger] nodes[k]) && g2.node(nodes[k]) is Texture && g2.node(
                        nodes[k],
                    )->Texture_0.path@ == path && g2.node(nodes[k])->Texture_0.scale.effective() == scale;
                assert(g1.contains(nodes[k]));
                assert(nodes[k] != skip);
                assert(g1.node(nodes[k]) == g2.node(nodes[k]));
            }
        }
    }
}

/// The material node a sphere reads: its inline one, or the node it is wired to.
pub open spec fn sphere_material_source(g: &Graph, s: SphereNode) -> MaterialNode {
    match s.material.effective() {
        InputMaterial::Internal(m) => m,
        InputMaterial::External(mid) => g.node(mid)->Material_0,
    }
}

/// A flat material is of the node's kind and carries its scalar parameter.
pub open spec fn material_kind_matches(m: Material, n: MaterialNode) -> bool {
    match (m, n) {
        (Material::Lambertian { .. }, MaterialNode::Lambertian(_)) => true,
        (Material::Metal { fuzz, .. }, MaterialNode::Metal(x)) => fuzz == x.fuzz.effective(),
        (Material::Dielectric { refraction_index }, MaterialNode::Dielectric(x)) => refraction_index
            == x.ior.effective(),
        (Material::Checkerboard { .. }, MaterialNode::Checkerboard(_)) => true,
        (Material::Emissive { .. }, MaterialNode::Emissive(_)) => true,
        _ => false,
    }
}

/// Each sphere's material comes from its source; spheres wired to one material
/// node share its entry; an inline material belongs to its sphere alone.
pub open spec fn sphere_materials_ok(g: &Graph, cs: Seq<SphereNode>, scene: &Scene) -> bool {
    let sp = scene.spheres@;
    let ms = scene.materials@;
    &&& forall|k: int|
        0 <= k < sp.len() ==> material_kind_matches(
            ms[(#[trigger] sp[k]).material_idx as int],
            sphere_material_source(g, cs[k]),
        )
    &&& forall|a: int, b: int|
        0 <= a < sp.len() && 0 <= b < sp.len() && cs[a].material.effective() is External
            && cs[a].material.effective() == cs[b].material.effective() ==> (#[trigger] sp[a]).material_idx
            == (#[trigger] sp[b]).material_idx
    &&& forall|a: int, b: int|
        0 <= a < sp.len() && 0 <= b < sp.len() && a != b && cs[a].material.effective() is Internal
            ==> (#[trigger] sp[a]).material_idx != (#[trigger] sp[b]).material_idx
}

/// `map` sends `id` to `idx`.
pub open spec fn has_pair(map: Seq<(NodeId, usize)>, id: NodeId, idx: usize) -> bool {
    exists|j: int| 0 <= j < map.len() && #[trigger] map[j] == (id, idx)
}

proof fn lemma_compiled_external_is_material(g: &Graph, nodes: Seq<NodeId>, k: int)
    requires
        0 <= k < compiled_spheres(g, nodes).len(),
        compiled_spheres(g, nodes)[k].material.effective() is External,
    ensures
        g.contains(compiled_spheres(g, nodes)[k].material.effective()->External_0),
        g.node(compiled_spheres(g, nodes)[k].material.effective()->External_0) is Material,
    decreases nodes.len(),
{
    let rest = compiled_spheres(g, nodes.drop_last());
    if k < rest.len() {
        lemma_compiled_external_is_material(g, nodes.drop_last(), k);
    }
}

fn lookup(map: &Vec<(NodeId, usize)>, id: NodeId) -> (r: Option<usize>)
    ensures
        r is Some ==> exists|k: int| 0 <= k < map@.len() && #[trigger] map@[k] == (id, r->Some_0),
        r is None ==> forall|k: int| 0 <= k < map@.len() ==> (#[trigger] map@[k]).0 != id,
{
    let mut i: usize = 0;
    while i < map.len()
        invariant
            0 <= i <= map@.len(),
            forall|k: int| 0 <= k < i ==> (#[trigger] map@[k]).0 != id,
        decreases map@.len() - i,
    {
        if map[i].0 == id {
            return Some(map[i].1);
        }
        i += 1;
    }
    None
}

fn find_texture(textures: &Vec<TextureData>, path: &String, scale: u32) -> (r: Option<usize>)
    ensures
        r is Some ==> r->Some_0 < textures@.len() && texture_matches(textures@[r->Some_0 as int], path@, scale),
        r is None ==> forall|k: int| 0 <= k < textures@.len() ==> !texture_matches(#[trigger] textures@[k], path@, scale),
{
    let mut i: usize = 0;
    while i < textures.len()
        invariant
            0 <= i <= textures@.len(),
            forall|k: int| 0 <= k < i ==> !texture_matches(#[trigger] textures@[k], path@, scale),
        decreases textures@.len() - i,
    {
        if textures[i].matches(path, scale) {
            return Some(i);
        }
        i += 1;
    }
    None
}

/// Every image texture of `new` whose path and scale an old texture had is that
/// old texture, moved over with its decoded texels.
pub open spec fn reuses_old(new: Seq<TextureData>, old: Seq<TextureData>) -> bool {
    forall|k: int, j: int|
        0 <= k < new.len() && 0 <= j < old.len() && (#[trigger] new[k]).key is Some && texture_matches(
            #[trigger] old[j],
            new[k].key->Some_0@,
            new[k].scale,
        ) ==> new[k] == old[j]
}

/// Every old image texture is either still unclaimed in `rest` or already in `new`.
spec fn accounted(orig: Seq<TextureData>, rest: Seq<TextureData>, new: Seq<TextureData>) -> bool {
    forall|j: int|
        0 <= j < orig.len() && (#[trigger] orig[j]).key is Some ==> (exists|m: int|
            0 <= m < rest.len() && #[trigger] rest[m] == orig[j]) || (exists|k: int|
            0 <= k < new.len() && #[trigger] new[k] == orig[j])
}

/// Every unclaimed texture is one of the old ones.
spec fn from_orig(orig: Seq<TextureData>, rest: Seq<TextureData>) -> bool {
    forall|m: int| 0 <= m < rest.len() ==> #[trigger] in_orig(orig, rest[m])
}

spec fn in_orig(orig: Seq<TextureData>, t: TextureData) -> bool {
    exists|j: int| 0 <= j < orig.len() && #[trigger] orig[j] == t
}

proof fn lemma_material_spec_ok(m: MaterialNode, tid: Option<usize>, n: nat)
    requires
        tid is Some ==> tid->Some_0 < n,
    ensures
        material_refs_ok(material_spec(m, tid, n), n + solid_colors(m, tid).len()),
{
}

/// Appending textures without a key keeps uniqueness and reuse facts.
proof fn lemma_append_unkeyed(
    t1: Seq<TextureData>,
    t2: Seq<TextureData>,
    orig: Seq<TextureData>,
    rest: Seq<TextureData>,
)
    requires
        t2.len() >= t1.len(),
        t2.take(t1.len() as int) == t1,
        forall|k: int| t1.len() <= k < t2.len() ==> (#[trigger] t2[k]).key is None,
        textures_unique(t1),
        reuses_old(t1, orig),
        accounted(orig, rest, t1),
    ensures
        textures_unique(t2),
        reuses_old(t2, orig),
        accounted(orig, rest, t2),
{
    assert forall|k: int| 0 <= k < t1.len() implies t2[k] == #[trigger] t1[k] by {
        assert(t2.take(t1.len() as int)[k] == t2[k]);
    }
    assert forall|i: int, j: int|
        0 <= i < t2.len() && 0 <= j < t2.len() && i != j && (#[trigger] t2[i]).key is Some implies !texture_matches(
        #[trigger] t2[j],
        t2[i].key->Some_0@,
        t2[i].scale,
    ) by {
        assert(i < t1.len());
        assert(t2[i] == t1[i]);
        if j < t1.len() {
            assert(t2[j] == t1[j]);
        }
    }
    assert forall|k: int, j: int|
        0 <= k < t2.len() && 0 <= j < orig.len() && (#[trigger] t2[k]).key is Some && texture_matches(
            #[trigger] orig[j],
            t2[k].key->Some_0@,
            t2[k].scale,
        ) implies t2[k] == orig[j] by {
        assert(k < t1.len());
        assert(t2[k] == t1[k]);
    }
    assert forall|j: int| 0 <= j < orig.len() && (#[trigger] orig[j]).key is Some implies (exists|m: int|
        0 <= m < rest.len() && #[trigger] rest[m] == orig[j]) || (exists|k: int|
        0 <= k < t2.len() && #[trigger] t2[k] == orig[j]) by {
        if !(exists|m: int| 0 <= m < rest.len() && #[trigger] rest[m] == orig[j]) {
            let k = choose|k: int| 0 <= k < t1.len() && #[trigger] t1[k] == orig[j];
            assert(t2[k] == t1[k]);
        }
    }
}

/// Builds the flat scene from the collected nodes, in their order. Image textures
/// are shared by path and scale; one already decoded in `old_textures` is moved
/// over instead of being loaded again; any other is left pending.
pub fn build_scene(g: &Graph, nodes: &Vec<NodeId>, old_textures: Vec<TextureData>) -> (r: Scene)
    requires
        nodes@.len() <= u32::MAX,
        nodes@.no_duplicates(),
        forall|k: int| 0 <= k < nodes@.len() ==> g.contains(#[trigger] nodes@[k]),
        textures_unique(old_textures@),
    ensures
        r.wf(),
        sphere_materials_ok(g, compiled_spheres(g, nodes@), &r),
        sphere_textures_ok(g, nodes@, &r),
        r.materials@.len() == material_count(g, nodes@),
        r.textures@.len() == texture_count(g, nodes@),
        images_from_nodes(g, nodes@, r.textures@),
        reuses_old(r.textures@, old_textures@),
        r.spheres@.len() == compiled_spheres(g, nodes@).len(),
        forall|k: int|
            0 <= k < r.spheres@.len() ==> (#[trigger] r.spheres@[k]).center == compiled_spheres(
                g,
                nodes@,
            )[k].center.effective() && r.spheres@[k].radius == compiled_spheres(g, nodes@)[k].radius.effective(),
        forall|k: int|
            0 <= k < nodes@.len() && (g.node(#[trigger] nodes@[k]) is Texture) ==> exists|t: int|
                0 <= t < r.textures@.len() && texture_matches(
                    #[trigger] r.textures@[t],
                    g.node(nodes@[k])->Texture_0.path@,
                    g.node(nodes@[k])->Texture_0.scale.effective(),
                ),
{
    let ghost orig = old_textures@;
    let mut old = old_textures;
    let mut textures: Vec<TextureData> = Vec::new();
    let mut tex_idx: Vec<(NodeId, usize)> = Vec::new();
    let mut materials: Vec<Material> = Vec::new();
    let mut mat_idx: Vec<(NodeId, usize)> = Vec::new();
    let mut spheres: Vec<Sphere> = Vec::new();
    let ghost mut src: Seq<bool> = Seq::empty();
    proof {
        assert forall|j: int| 0 <= j < orig.len() && (#[trigger] orig[j]).key is Some implies (exists|m: int|
            0 <= m < old@.len() && #[trigger] old@[m] == orig[j]) || (exists|k: int|
            0 <= k < textures@.len() && #[trigger] textures@[k] == orig[j]) by {
            assert(old@[j] == orig[j]);
        }
        assert forall|m: int| 0 <= m < old@.len() implies #[trigger] in_orig(orig, old@[m]) by {
            assert(orig[m] == old@[m]);
        }
    }
    let mut i: usize = 0;
    while i < nodes.len()
        invariant
            0 <= i <= nodes@.len(),
            nodes@.len() <= u32::MAX,
            forall|k: int| 0 <= k < nodes@.len() ==> g.contains(#[trigger] nodes@[k]),
            textures_unique(orig),
            materials@.len() <= i,
            forall|k: int| 0 <= k < materials@.len() ==> material_refs_ok(#[trigger] materials@[k], textures@.len()),
            forall|k: int| 0 <= k < spheres@.len() ==> (#[trigger] spheres@[k]).material_idx < materials@.len(),
            textures_unique(textures@),
            forall|k: int| 0 <= k < tex_idx@.len() ==> (#[trigger] tex_idx@[k]).1 < textures@.len(),
            forall|k: int|
                0 <= k < mat_idx@.len() ==> {
                    let e = #[trigger] mat_idx@[k];
                    &&& e.1 < materials@.len()
                    &&& nodes@.take(i as int).contains(e.0)
                    &&& g.contains(e.0)
                    &&& g.node(e.0) is Material
                },
            forall|id: NodeId|
                nodes@.take(i as int).contains(id) && g.contains(id) && g.node(id) is Material ==> exists|k: int|
                    0 <= k < mat_idx@.len() && (#[trigger] mat_idx@[k]).0 == id,
            spheres@.len() == compiled_spheres(g, nodes@.take(i as int)).len(),
            forall|k: int|
                0 <= k < spheres@.len() ==> (#[trigger] spheres@[k]).center == compiled_spheres(
                    g,
                    nodes@.take(i as int),
                )[k].center.effective() && spheres@[k].radius == compiled_spheres(
                    g,
                    nodes@.take(i as int),
                )[k].radius.effective(),
            forall|k: int|
                0 <= k < i && (g.node(#[trigger] nodes@[k]) is Texture) ==> exists|t: int|
                    0 <= t < textures@.len() && texture_matches(
                        #[trigger] textures@[t],
                        g.node(nodes@[k])->Texture_0.path@,
                        g.node(nodes@[k])->Texture_0.scale.effective(),
                    ),
            reuses_old(textures@, orig),
            accounted(orig, old@, textures@),
            from_orig(orig, old@),
            nodes@.no_duplicates(),
            src.len() == materials@.len(),
            forall|a: int, b: int|
                0 <= a < mat_idx@.len() && 0 <= b < mat_idx@.len() && a != b ==> (#[trigger] mat_idx@[a]).0
                    != (#[trigger] mat_idx@[b]).0,
            forall|j: int|
                0 <= j < mat_idx@.len() ==> src[(#[trigger] mat_idx@[j]).1 as int] && material_kind_matches(
                    materials@[mat_idx@[j].1 as int],
                    g.node(mat_idx@[j].0)->Material_0,
                ),
            forall|k: int|
                0 <= k < spheres@.len() ==> material_kind_matches(
                    materials@[(#[trigger] spheres@[k]).material_idx as int],
                    sphere_material_source(g, compiled_spheres(g, nodes@.take(i as int))[k]),
                ),
            forall|k: int|
                0 <= k < spheres@.len() && compiled_spheres(g, nodes@.take(i as int))[k].material.effective() is External
                    ==> has_pair(mat_idx@, compiled_spheres(g, nodes@.take(i as int))[k].material.effective()->External_0, (#[trigger] spheres@[k]).material_idx as usize),
            forall|k: int|
                0 <= k < spheres@.len() && compiled_spheres(g, nodes@.take(i as int))[k].material.effective() is Internal
                    ==> !src[(#[trigger] spheres@[k]).material_idx as int],
            forall|a: int, b: int|
                0 <= a < spheres@.len() && 0 <= b < spheres@.len() && a != b && compiled_spheres(
                    g,
                    nodes@.take(i as int),
                )[a].material.effective() is Internal ==> (#[trigger] spheres@[a]).material_idx
                    != (#[trigger] spheres@[b]).material_idx,
            tex_entries_ok(g, nodes@.take(i as int), tex_idx@, textures@),
            materials@.len() == material_count(g, nodes@.take(i as int)),
            textures@.len() == texture_count(g, nodes@.take(i as int)),
            images_from_nodes(g, nodes@.take(i as int), textures@),
            tex_complete(g, nodes@.take(i as int), tex_idx@),
            mats_read_ok(g, nodes@, mat_idx@, materials@, textures@),
            compiled_sphere_ids(g, nodes@.take(i as int)).len() == spheres@.len(),
            spheres_read_ok(
                g,
                nodes@,
                compiled_spheres(g, nodes@.take(i as int)),
                compiled_sphere_ids(g, nodes@.take(i as int)),
                spheres@,
                materials@,
                textures@,
            ),
        decreases nodes@.len() - i,
    {
        let id = nodes[i];
        let ghost t_before = textures@;
        let ghost m_before = materials@;
        let ghost s_before = spheres@;
        let ghost mi_before = mat_idx@;
        let ghost src_before = src;
        let ghost cs_before = compiled_spheres(g, nodes@.take(i as int));
        let ghost ids_before = compiled_sphere_ids(g, nodes@.take(i as int));
        let ghost ti_before = tex_idx@;
        let ghost prefix = nodes@.take(i as int);
        let ghost next = nodes@.take(i + 1 as int);
        proof {
            assert(next.drop_last() == prefix);
            assert(next.last() == id);
            assert forall|x: NodeId| prefix.contains(x) implies next.contains(x) by {
                let k = choose|k: int| 0 <= k < prefix.len() && prefix[k] == x;
                assert(next[k] == x);
            }
            assert(next.contains(id)) by {
                assert(next[i as int] == id);
            }
            assert forall|x: NodeId| next.contains(x) && x != id implies prefix.contains(x) by {
                let k = choose|k: int| 0 <= k < next.len() && next[k] == x;
                assert(k != i);
                assert(prefix[k] == x);
            }
        }
        match g.node_ref(id) {
            Node::Texture(t) => {
                let scale = t.scale.get();
                match find_texture(&textures, &t.path, scale) {
                    Some(p) => {
                        tex_idx.push((id, p));
                        proof {
                            assert(textures@ == t_before);
                            assert(texture_matches(t_before[p as int], t.path@, scale));
                            assert(key_seen(g, prefix, t.path@, scale));
                        }
                    },
                    None => {
                        proof {
                            assert(!key_seen(g, prefix, t.path@, scale)) by {
                                if key_seen(g, prefix, t.path@, scale) {
                                    let k = choose|k: int|
                                        0 <= k < prefix.len() && g.contains(#[trigger] prefix[k]) && g.node(prefix[k]) is Texture
                                            && g.node(prefix[k])->Texture_0.path@ == t.path@ && g.node(
                                            prefix[k],
                                        )->Texture_0.scale.effective() == scale;
                                    assert(prefix[k] == nodes@[k]);
                                    assert(g.node(nodes@[k]) is Texture);
                                    let tt = choose|tt: int|
                                        0 <= tt < t_before.len() && texture_matches(
                                            #[trigger] t_before[tt],
                                            g.node(nodes@[k])->Texture_0.path@,
                                            g.node(nodes@[k])->Texture_0.scale.effective(),
                                        );
                                    assert(texture_matches(t_before[tt], t.path@, scale));
                                }
                            }
                        }
                        match find_texture(&old, &t.path, scale) {
                            Some(p) => {
                                let ghost rest0 = old@;
                                let data = old.remove(p);
                                textures.push(data);
                                proof {
                                    let nt = textures@;
                                    let n0 = t_before.len() as int;
                                    assert(nt[n0] == rest0[p as int]);
                                    assert(in_orig(orig, rest0[p as int]));
                                    let jp = choose|j: int| 0 <= j < orig.len() && #[trigger] orig[j] == rest0[p as int];
                                    assert forall|k: int| 0 <= k < n0 implies nt[k] == #[trigger] t_before[k] by {}
                                    // uniqueness
                                    assert forall|a: int, b: int|
                                        0 <= a < nt.len() && 0 <= b < nt.len() && a != b && (#[trigger] nt[a]).key is Some
                                        implies !texture_matches(#[trigger] nt[b], nt[a].key->Some_0@, nt[a].scale) by {
                                        if a < n0 && b < n0 {
                                        } else if a < n0 {
                                            assert(nt[b] == rest0[p as int]);
                                            if texture_matches(nt[b], nt[a].key->Some_0@, nt[a].scale) {
                                                assert(texture_matches(t_before[a], t.path@, scale));
                                            }
                                        } else {
                                            assert(!texture_matches(t_before[b], t.path@, scale));
                                        }
                                    }
                                    // reuse
                                    assert forall|k: int, j: int|
                                        0 <= k < nt.len() && 0 <= j < orig.len() && (#[trigger] nt[k]).key is Some
                                            && texture_matches(#[trigger] orig[j], nt[k].key->Some_0@, nt[k].scale)
                                        implies nt[k] == orig[j] by {
                                        if k == n0 {
                                            if j != jp {
                                                assert(!texture_matches(orig[j], orig[jp].key->Some_0@, orig[jp].scale));
                                            }
                                        }
                                    }
                                    // accounted
                                    let rest1 = old@;
                                    assert forall|j: int| 0 <= j < orig.len() && (#[trigger] orig[j]).key is Some implies (exists|m: int|
                                        0 <= m < rest1.len() && #[trigger] rest1[m] == orig[j]) || (exists|k: int|
                                        0 <= k < nt.len() && #[trigger] nt[k] == orig[j]) by {
                                        if exists|m: int| 0 <= m < rest0.len() && #[trigger] rest0[m] == orig[j] {
                                            let m = choose|m: int| 0 <= m < rest0.len() && #[trigger] rest0[m] == orig[j];
                                            if m == p {
                                                assert(nt[n0] == orig[j]);
                                            } else if m < p {
                                                assert(rest1[m] == orig[j]);
                                            } else {
                                                assert(rest1[m - 1] == orig[j]);
                                            }
                                        } else {
                                            let k = choose|k: int| 0 <= k < t_before.len() && #[trigger] t_before[k] == orig[j];
                                            assert(nt[k] == orig[j]);
                                        }
                                    }
                                    assert forall|m: int| 0 <= m < rest1.len() implies #[trigger] in_orig(orig, rest1[m]) by {
                                        if m < p {
                                            assert(rest1[m] == rest0[m]);
                                            assert(in_orig(orig, rest0[m]));
                                        } else {
                                            assert(rest1[m] == rest0[m + 1]);
                                            assert(in_orig(orig, rest0[m + 1]));
                                        }
                                    }
                                    assert(texture_matches(nt[n0], t.path@, scale));
                                }
                                tex_idx.push((id, textures.len() - 1));
                                proof {
                                    assert(textures@.len() == t_before.len() + 1);
                                    assert forall|k: int| 0 <= k < t_before.len() implies textures@[k] == #[trigger] t_before[k] by {}
                                }
                            },
                            None => {
                                textures.push(TextureData::pending(t.path.clone(), scale));
                                proof {
                                    let nt = textures@;
                                    let n0 = t_before.len() as int;
                                    assert forall|k: int| 0 <= k < n0 implies nt[k] == #[trigger] t_before[k] by {}
                                    assert forall|a: int, b: int|
                                        0 <= a < nt.len() && 0 <= b < nt.len() && a != b && (#[trigger] nt[a]).key is Some
                                        implies !texture_matches(#[trigger] nt[b], nt[a].key->Some_0@, nt[a].scale) by {
                                        if a < n0 && b < n0 {
                                        } else if a < n0 {
                                            if texture_matches(nt[b], nt[a].key->Some_0@, nt[a].scale) {
                                                assert(texture_matches(t_before[a], t.path@, scale));
                                            }
                                        } else {
                                            assert(!texture_matches(t_before[b], t.path@, scale));
                                        }
                                    }
                                    assert forall|k: int, j: int|
                                        0 <= k < nt.len() && 0 <= j < orig.len() && (#[trigger] nt[k]).key is Some
                                            && texture_matches(#[trigger] orig[j], nt[k].key->Some_0@, nt[k].scale)
                                        implies nt[k] == orig[j] by {
                                        if k == n0 {
                                            assert(orig[j].key is Some);
                                            if exists|m: int| 0 <= m < old@.len() && #[trigger] old@[m] == orig[j] {
                                                let m = choose|m: int| 0 <= m < old@.len() && #[trigger] old@[m] == orig[j];
                                                assert(!texture_matches(old@[m], t.path@, scale));
                                            } else {
                                                let kk = choose|kk: int| 0 <= kk < t_before.len() && #[trigger] t_before[kk] == orig[j];
                                                assert(!texture_matches(t_before[kk], t.path@, scale));
                                            }
                                        }
                                    }
                                    assert forall|j: int| 0 <= j < orig.len() && (#[trigger] orig[j]).key is Some implies (exists|m: int|
                                        0 <= m < old@.len() && #[trigger] old@[m] == orig[j]) || (exists|k: int|
                                        0 <= k < nt.len() && #[trigger] nt[k] == orig[j]) by {
                                        if !(exists|m: int| 0 <= m < old@.len() && #[trigger] old@[m] == orig[j]) {
                                            let k = choose|k: int| 0 <= k < t_before.len() && #[trigger] t_before[k] == orig[j];
                                            assert(nt[k] == orig[j]);
                                        }
                                    }
                                    assert(texture_matches(nt[n0], t.path@, scale));
                                }
                                tex_idx.push((id, textures.len() - 1));
                                proof {
                                    assert(textures@.len() == t_before.len() + 1);
                                    assert forall|k: int| 0 <= k < t_before.len() implies textures@[k] == #[trigger] t_before[k] by {}
                                }
                            },
                        }
                    },
                }
                proof {
                    assert forall|k: int|
                        0 <= k < i + 1 && (g.node(#[trigger] nodes@[k]) is Texture) implies exists|tt: int|
                            0 <= tt < textures@.len() && texture_matches(
                                #[trigger] textures@[tt],
                                g.node(nodes@[k])->Texture_0.path@,
                                g.node(nodes@[k])->Texture_0.scale.effective(),
                            ) by {
                        if k < i {
                            let tt = choose|tt: int|
                                0 <= tt < t_before.len() && texture_matches(
                                    #[trigger] t_before[tt],
                                    g.node(nodes@[k])->Texture_0.path@,
                                    g.node(nodes@[k])->Texture_0.scale.effective(),
                                );
                            assert(textures@[tt] == t_before[tt]);
                        }
                    }
                    assert(compiled_spheres(g, next) == compiled_spheres(g, prefix));
                    assert forall|k: int|
                        0 <= k < spheres@.len() && compiled_spheres(g, next)[k].material.effective() is External
                            implies has_pair(mat_idx@, compiled_spheres(g, next)[k].material.effective()->External_0, (#[trigger] spheres@[k]).material_idx as usize) by {
                        assert(spheres@[k] == s_before[k]);
                        let j = choose|j: int|
                            0 <= j < mi_before.len() && #[trigger] mi_before[j] == (
                                cs_before[k].material.effective()->External_0,
                                s_before[k].material_idx as usize,
                            );
                        assert(mat_idx@[j] == mi_before[j]);
                    }
                }
                proof {
                    assert(g.node(id) == Node::Texture(*t));
                    assert(next.take(prefix.len() as int) == prefix);
                    assert(textures@.len() == t_before.len() || textures@.len() == t_before.len() + 1);
                    assert(textures@.len() == t_before.len() <==> key_seen(g, prefix, t.path@, scale));
                    assert forall|k: int|
                        t_before.len() <= k < textures@.len() && (#[trigger] textures@[k]).key is Some implies key_seen(
                            g,
                            next,
                            textures@[k].key->Some_0@,
                            textures@[k].scale,
                        ) by {
                        assert(k == tex_idx@.last().1);
                        assert(next[i as int] == id);
                    }
                    assert(textures@.take(t_before.len() as int) =~= t_before);
                    lemma_images_grow(g, prefix, next, t_before, textures@);
                    assert(compiled_sphere_ids(g, next) == ids_before);
                    assert(tex_idx@.len() == ti_before.len() + 1);
                    assert(tex_idx@.last().0 == id);
                    assert(texture_matches(textures@[tex_idx@.last().1 as int], t.path@, scale));
                    assert(textures@.len() >= t_before.len());
                    assert(textures@.take(t_before.len() as int) =~= t_before);
                    assert(next.take(prefix.len() as int) == prefix);
                    lemma_images_grow(g, prefix, next, t_before, textures@);
                    lemma_tex_entries_grow(g, prefix, next, ti_before, t_before, textures@);
                    assert forall|k: int| 0 <= k < ti_before.len() implies tex_idx@[k] == #[trigger] ti_before[k] by {}
                    assert forall|k: int| 0 <= k < tex_idx@.len() implies {
                        let e = #[trigger] tex_idx@[k];
                        &&& next.contains(e.0)
                        &&& g.contains(e.0)
                        &&& g.node(e.0) is Texture
                        &&& e.1 < textures@.len()
                        &&& texture_matches(
                            textures@[e.1 as int],
                            g.node(e.0)->Texture_0.path@,
                            g.node(e.0)->Texture_0.scale.effective(),
                        )
                    } by {
                        if k < ti_before.len() {
                            assert(tex_idx@[k] == ti_before[k]);
                        }
                    }
                    assert(tex_entries_ok(g, next, tex_idx@, textures@));
                    assert forall|x: NodeId| next.contains(x) && g.contains(x) && g.node(x) is Texture implies exists|k: int|
                        0 <= k < tex_idx@.len() && (#[trigger] tex_idx@[k]).0 == x by {
                        if x == id {
                            assert(tex_idx@[tex_idx@.len() - 1].0 == id);
                        } else {
                            assert(prefix.contains(x));
                            let k = choose|k: int| 0 <= k < ti_before.len() && (#[trigger] ti_before[k]).0 == x;
                            assert(tex_idx@[k] == ti_before[k]);
                        }
                    }
                    assert(materials@.take(m_before.len() as int) =~= m_before);
                    lemma_reads_grow(g, nodes@, mat_idx@, cs_before, ids_before, spheres@, m_before, materials@, t_before, textures@);
                }
            },
            Node::Material(m) => {
                let tid = match m.get_texture_node_id() {
                    Some(tn) => lookup(&tex_idx, tn),
                    None => None,
                };
                let mat = Material::from_node(m, tid, &mut textures);
                proof {
                    lemma_material_spec_ok(*m, tid, t_before.len());
                    assert forall|k: int| t_before.len() <= k < textures@.len() implies (#[trigger] textures@[k]).key is None by {
                        let j = k - t_before.len();
                        assert(is_solid(textures@[t_before.len() + j], solid_colors(*m, tid)[j]));
                    }
                    lemma_append_unkeyed(t_before, textures@, orig, old@);
                    assert forall|k: int| 0 <= k < m_before.len() implies material_refs_ok(
                        #[trigger] m_before[k],
                        textures@.len(),
                    ) by {
                        lemma_refs_ok_grow(m_before[k], t_before.len(), textures@.len());
                    }
                    assert forall|k: int| 0 <= k < t_before.len() implies textures@[k] == #[trigger] t_before[k] by {
                        assert(textures@.take(t_before.len() as int)[k] == textures@[k]);
                    }
                }
                materials.push(mat);
                mat_idx.push((id, materials.len() - 1));
                proof {
                    src = src.push(true);
                    assert(compiled_spheres(g, next) == compiled_spheres(g, prefix));
                    assert(!prefix.contains(id)) by {
                        if prefix.contains(id) {
                            let k = choose|k: int| 0 <= k < prefix.len() && prefix[k] == id;
                            assert(nodes@[k] == nodes@[i as int]);
                        }
                    }
                    assert(g.node(id) == Node::Material(*m));
                    assert forall|a: int| 0 <= a < m_before.len() implies materials@[a] == #[trigger] m_before[a] by {}
                    assert forall|a: int| 0 <= a < src_before.len() implies src[a] == #[trigger] src_before[a] by {}
                    assert forall|a: int| 0 <= a < mi_before.len() implies mat_idx@[a] == #[trigger] mi_before[a] by {}
                    assert forall|a: int, b: int|
                        0 <= a < mat_idx@.len() && 0 <= b < mat_idx@.len() && a != b implies (#[trigger] mat_idx@[a]).0
                            != (#[trigger] mat_idx@[b]).0 by {
                        if a == mi_before.len() as int {
                            assert(prefix.contains(mi_before[b].0));
                        } else if b == mi_before.len() as int {
                            assert(prefix.contains(mi_before[a].0));
                        }
                    }
                    assert forall|k: int|
                        0 <= k < spheres@.len() && compiled_spheres(g, next)[k].material.effective() is External
                            implies has_pair(mat_idx@, compiled_spheres(g, next)[k].material.effective()->External_0, (#[trigger] spheres@[k]).material_idx as usize) by {
                        let j = choose|j: int|
                            0 <= j < mi_before.len() && #[trigger] mi_before[j] == (
                                cs_before[k].material.effective()->External_0,
                                spheres@[k].material_idx as usize,
                            );
                        assert(mat_idx@[j] == mi_before[j]);
                    }
                    assert(compiled_spheres(g, next) == compiled_spheres(g, prefix));
                    assert forall|k: int|
                        0 <= k < i + 1 && (g.node(#[trigger] nodes@[k]) is Texture) implies exists|tt: int|
                            0 <= tt < textures@.len() && texture_matches(
                                #[trigger] textures@[tt],
                                g.node(nodes@[k])->Texture_0.path@,
                                g.node(nodes@[k])->Texture_0.scale.effective(),
                            ) by {
                        let tt = choose|tt: int|
                            0 <= tt < t_before.len() && texture_matches(
                                #[trigger] t_before[tt],
                                g.node(nodes@[k])->Texture_0.path@,
                                g.node(nodes@[k])->Texture_0.scale.effective(),
                            );
                        assert(textures@[tt] == t_before[tt]);
                    }
                    assert forall|k: int| 0 <= k < materials@.len() implies material_refs_ok(
                        #[trigger] materials@[k],
                        textures@.len(),
                    ) by {
                        if k < m_before.len() {
                            assert(materials@[k] == m_before[k]);
                        }
                    }
                    assert(mat_idx@.last() == (id, (materials@.len() - 1) as usize));
                }
                proof {
                    assert(tex_idx@ == ti_before);
                    assert(compiled_sphere_ids(g, next) == ids_before);
                    assert(textures@.take(t_before.len() as int) == t_before);
                    assert(next.take(prefix.len() as int) == prefix);
                    assert(g.node(id) == Node::Material(*m));
                    lemma_images_grow(g, prefix, next, t_before, textures@);
                    lemma_tid_resolves(g, prefix, ti_before, t_before, *m, tid);
                    lemma_solids_len(*m, tid, texture_resolves(g, prefix, *m));
                    lemma_tex_entries_grow(g, prefix, next, ti_before, t_before, textures@);
                    assert forall|x: NodeId| next.contains(x) && g.contains(x) && g.node(x) is Texture implies exists|k: int|
                        0 <= k < tex_idx@.len() && (#[trigger] tex_idx@[k]).0 == x by {
                        assert(x != id);
                        assert(prefix.contains(x));
                    }
                    assert(materials@.take(m_before.len() as int) =~= m_before);
                    lemma_reads_grow(g, nodes@, mi_before, cs_before, ids_before, s_before, m_before, materials@, t_before, textures@);
                    vstd::std_specs::vec::axiom_spec_len(&textures);
                    lemma_new_material_reads(g, nodes@, i as int, ti_before, t_before, textures@, *m, tid);
                    assert(nodes@[i as int] == id);
                    assert forall|j: int| 0 <= j < mat_idx@.len() implies texture_refs_ok(
                        g,
                        nodes@,
                        (#[trigger] mat_idx@[j]).0,
                        g.node(mat_idx@[j].0)->Material_0,
                        materials@[mat_idx@[j].1 as int],
                        textures@,
                    ) by {
                        if j < mi_before.len() {
                            assert(mat_idx@[j] == mi_before[j]);
                        } else {
                            assert(mat_idx@[j] == (id, m_before.len() as usize));
                            assert(materials@[m_before.len() as int] == mat);
                        }
                    }
                }
            },
            Node::Primitive(PrimitiveNode::Sphere(sn)) => {
                let sphere_node: &SphereNode = sn;
                match sphere_node.material.get() {
                    InputMaterial::Internal(mn) => {
                        let tid = match mn.get_texture_node_id() {
                            Some(tn) => lookup(&tex_idx, tn),
                            None => None,
                        };
                        let mat = Material::from_node(&mn, tid, &mut textures);
                        proof {
                            lemma_material_spec_ok(mn, tid, t_before.len());
                            assert forall|k: int| t_before.len() <= k < textures@.len() implies (#[trigger] textures@[k]).key is None by {
                                let j = k - t_before.len();
                                assert(is_solid(textures@[t_before.len() + j], solid_colors(mn, tid)[j]));
                            }
                            lemma_append_unkeyed(t_before, textures@, orig, old@);
                            assert forall|k: int| 0 <= k < m_before.len() implies material_refs_ok(
                                #[trigger] m_before[k],
                                textures@.len(),
                            ) by {
                                lemma_refs_ok_grow(m_before[k], t_before.len(), textures@.len());
                            }
                            assert forall|k: int| 0 <= k < t_before.len() implies textures@[k] == #[trigger] t_before[k] by {
                                assert(textures@.take(t_before.len() as int)[k] == textures@[k]);
                            }
                        }
                        materials.push(mat);
                        let idx = materials.len() - 1;
                        spheres.push(Sphere::from_node(sphere_node, idx as u32));
                        proof {
                            src = src.push(false);
                            assert(sphere_resolves(g, prefix, *sphere_node));
                            assert(compiled_spheres(g, next) == cs_before.push(*sphere_node));
                            let cs = compiled_spheres(g, next);
                            assert forall|a: int| 0 <= a < m_before.len() implies materials@[a] == #[trigger] m_before[a] by {}
                            assert forall|a: int| 0 <= a < src_before.len() implies src[a] == #[trigger] src_before[a] by {}
                            assert forall|a: int| 0 <= a < s_before.len() implies spheres@[a] == #[trigger] s_before[a] by {}
                            assert forall|a: int| 0 <= a < s_before.len() implies cs[a] == #[trigger] cs_before[a] by {}
                            assert forall|k: int|
                                0 <= k < spheres@.len() implies material_kind_matches(
                                    materials@[(#[trigger] spheres@[k]).material_idx as int],
                                    sphere_material_source(g, cs[k]),
                                ) by {
                                if k < s_before.len() {
                                    assert(spheres@[k] == s_before[k]);
                                    assert(cs[k] == cs_before[k]);
                                }
                            }
                            assert forall|k: int|
                                0 <= k < spheres@.len() && cs[k].material.effective() is External implies has_pair(mat_idx@, cs[k].material.effective()->External_0, (#[trigger] spheres@[k]).material_idx as usize) by {
                                assert(k < s_before.len());
                                assert(spheres@[k] == s_before[k]);
                                assert(cs[k] == cs_before[k]);
                                let j = choose|j: int|
                                    0 <= j < mi_before.len() && #[trigger] mi_before[j] == (
                                        cs_before[k].material.effective()->External_0,
                                        s_before[k].material_idx as usize,
                                    );
                                assert(mat_idx@[j] == mi_before[j]);
                            }
                            assert forall|k: int|
                                0 <= k < spheres@.len() && cs[k].material.effective() is Internal implies !src[(#[trigger] spheres@[k]).material_idx as int] by {
                                if k < s_before.len() {
                                    assert(spheres@[k] == s_before[k]);
                                    assert(cs[k] == cs_before[k]);
                                }
                            }
                            assert forall|a: int, b: int|
                                0 <= a < spheres@.len() && 0 <= b < spheres@.len() && a != b && cs[a].material.effective() is Internal
                                    implies (#[trigger] spheres@[a]).material_idx != (#[trigger] spheres@[b]).material_idx by {
                                if a < s_before.len() && b < s_before.len() {
                                    assert(spheres@[a] == s_before[a] && spheres@[b] == s_before[b]);
                                    assert(cs[a] == cs_before[a]);
                                } else if a < s_before.len() {
                                    assert(spheres@[a] == s_before[a]);
                                } else {
                                    assert(spheres@[b] == s_before[b]);
                                }
                            }
                            assert forall|k: int|
                                0 <= k < i + 1 && (g.node(#[trigger] nodes@[k]) is Texture) implies exists|tt: int|
                                    0 <= tt < textures@.len() && texture_matches(
                                        #[trigger] textures@[tt],
                                        g.node(nodes@[k])->Texture_0.path@,
                                        g.node(nodes@[k])->Texture_0.scale.effective(),
                                    ) by {
                                let tt = choose|tt: int|
                                    0 <= tt < t_before.len() && texture_matches(
                                        #[trigger] t_before[tt],
                                        g.node(nodes@[k])->Texture_0.path@,
                                        g.node(nodes@[k])->Texture_0.scale.effective(),
                                    );
                                assert(textures@[tt] == t_before[tt]);
                            }
                            assert forall|k: int| 0 <= k < materials@.len() implies material_refs_ok(
                                #[trigger] materials@[k],
                                textures@.len(),
                            ) by {
                                if k < m_before.len() {
                                    assert(materials@[k] == m_before[k]);
                                }
                            }
                        }
                        proof {
                            assert(tex_idx@ == ti_before);
                            assert(compiled_sphere_ids(g, next) == ids_before.push(id));
                            assert(textures@.take(t_before.len() as int) == t_before);
                            assert(next.take(prefix.len() as int) == prefix);
                            lemma_images_grow(g, prefix, next, t_before, textures@);
                            lemma_tid_resolves(g, prefix, ti_before, t_before, mn, tid);
                            lemma_solids_len(mn, tid, texture_resolves(g, prefix, mn));
                            lemma_tex_entries_grow(g, prefix, next, ti_before, t_before, textures@);
                            assert forall|x: NodeId| next.contains(x) && g.contains(x) && g.node(x) is Texture implies exists|k: int|
                                0 <= k < tex_idx@.len() && (#[trigger] tex_idx@[k]).0 == x by {
                                assert(x != id);
                                assert(prefix.contains(x));
                            }
                            assert(materials@.take(m_before.len() as int) =~= m_before);
                            lemma_reads_grow(g, nodes@, mi_before, cs_before, ids_before, s_before, m_before, materials@, t_before, textures@);
                            vstd::std_specs::vec::axiom_spec_len(&textures);
                            lemma_new_material_reads(g, nodes@, i as int, ti_before, t_before, textures@, mn, tid);
                            assert(nodes@[i as int] == id);
                            let cs = compiled_spheres(g, next);
                            let ids = compiled_sphere_ids(g, next);
                            assert forall|k: int|
                                0 <= k < spheres@.len() && cs[k].material.effective() is Internal implies texture_refs_ok(
                                    g,
                                    nodes@,
                                    ids[k],
                                    sphere_material_source(g, cs[k]),
                                    materials@[(#[trigger] spheres@[k]).material_idx as int],
                                    textures@,
                                ) by {
                                if k < s_before.len() {
                                    assert(spheres@[k] == s_before[k]);
                                    assert(cs[k] == cs_before[k]);
                                    assert(ids[k] == ids_before[k]);
                                } else {
                                    assert(spheres@[k].material_idx == m_before.len());
                                    assert(materials@[m_before.len() as int] == mat);
                                    assert(ids[k] == id);
                                    assert(cs[k] == *sphere_node);
                                }
                            }
                        }
                    },
                    InputMaterial::External(mid) => {
                        match lookup(&mat_idx, mid) {
                            Some(idx) => {
                                spheres.push(Sphere::from_node(sphere_node, idx as u32));
                                proof {
                                    assert(compiled_sphere_ids(g, next) == ids_before.push(id));
                                    assert(textures@.take(t_before.len() as int) =~= t_before);
                                    assert(next.take(prefix.len() as int) == prefix);
                                    lemma_images_grow(g, prefix, next, t_before, textures@);
                                    lemma_tex_entries_grow(g, prefix, next, ti_before, t_before, textures@);
                                    assert forall|x: NodeId| next.contains(x) && g.contains(x) && g.node(x) is Texture implies exists|k: int|
                                        0 <= k < tex_idx@.len() && (#[trigger] tex_idx@[k]).0 == x by {
                                        assert(x != id);
                                        assert(prefix.contains(x));
                                    }
                                    let cs2 = cs_before.push(*sphere_node);
                                    let ids2 = ids_before.push(id);
                                    assert forall|k: int|
                                        0 <= k < spheres@.len() && cs2[k].material.effective() is Internal implies texture_refs_ok(
                                            g,
                                            nodes@,
                                            ids2[k],
                                            sphere_material_source(g, cs2[k]),
                                            materials@[(#[trigger] spheres@[k]).material_idx as int],
                                            textures@,
                                        ) by {
                                        assert(k < s_before.len());
                                        assert(spheres@[k] == s_before[k]);
                                    }
                                    let jm = choose|k: int| 0 <= k < mat_idx@.len() && #[trigger] mat_idx@[k] == (mid, idx);
                                    assert(mat_idx@[jm].0 == mid);
                                    assert(sphere_resolves(g, prefix, *sphere_node));
                                    assert(compiled_spheres(g, next) == cs_before.push(*sphere_node));
                                    let cs = compiled_spheres(g, next);
                                    assert forall|a: int| 0 <= a < s_before.len() implies spheres@[a] == #[trigger] s_before[a] by {}
                                    assert forall|a: int| 0 <= a < s_before.len() implies cs[a] == #[trigger] cs_before[a] by {}
                                    assert forall|k: int|
                                        0 <= k < spheres@.len() implies material_kind_matches(
                                            materials@[(#[trigger] spheres@[k]).material_idx as int],
                                            sphere_material_source(g, cs[k]),
                                        ) by {
                                        if k < s_before.len() {
                                            assert(spheres@[k] == s_before[k]);
                                            assert(cs[k] == cs_before[k]);
                                        } else {
                                            assert(material_kind_matches(materials@[mat_idx@[jm].1 as int], g.node(mat_idx@[jm].0)->Material_0));
                                        }
                                    }
                                    assert forall|k: int|
                                        0 <= k < spheres@.len() && cs[k].material.effective() is External implies has_pair(mat_idx@, cs[k].material.effective()->External_0, (#[trigger] spheres@[k]).material_idx as usize) by {
                                        if k < s_before.len() {
                                            assert(spheres@[k] == s_before[k]);
                                            assert(cs[k] == cs_before[k]);
                                        } else {
                                            assert(mat_idx@[jm] == (mid, spheres@[k].material_idx as usize));
                                        }
                                    }
                                    assert forall|k: int|
                                        0 <= k < spheres@.len() && cs[k].material.effective() is Internal implies !src[(#[trigger] spheres@[k]).material_idx as int] by {
                                        assert(k < s_before.len());
                                        assert(spheres@[k] == s_before[k]);
                                        assert(cs[k] == cs_before[k]);
                                    }
                                    assert(src[idx as int]);
                                    assert forall|a: int, b: int|
                                        0 <= a < spheres@.len() && 0 <= b < spheres@.len() && a != b && cs[a].material.effective() is Internal
                                            implies (#[trigger] spheres@[a]).material_idx != (#[trigger] spheres@[b]).material_idx by {
                                        assert(a < s_before.len());
                                        assert(spheres@[a] == s_before[a]);
                                        assert(cs[a] == cs_before[a]);
                                        if b < s_before.len() {
                                            assert(spheres@[b] == s_before[b]);
                                        } else {
                                            assert(!src[spheres@[a].material_idx as int]);
                                        }
                                    }
                                }
                            },
                            None => {
                                proof {
                                    if prefix.contains(mid) && g.contains(mid) && g.node(mid) is Material {
                                        let k = choose|k: int| 0 <= k < mat_idx@.len() && (#[trigger] mat_idx@[k]).0 == mid;
                                    }
                                    assert(compiled_spheres(g, next) == cs_before);
                                    assert(compiled_sphere_ids(g, next) == ids_before);
                                    assert(textures@.take(t_before.len() as int) =~= t_before);
                                    assert(next.take(prefix.len() as int) == prefix);
                                    lemma_images_grow(g, prefix, next, t_before, textures@);
                                    lemma_tex_entries_grow(g, prefix, next, ti_before, t_before, textures@);
                                    assert forall|x: NodeId| next.contains(x) && g.contains(x) && g.node(x) is Texture implies exists|k: int|
                                        0 <= k < tex_idx@.len() && (#[trigger] tex_idx@[k]).0 == x by {
                                        assert(x != id);
                                        assert(prefix.contains(x));
                                    }
                                    assert forall|k: int|
                                        0 <= k < spheres@.len() && compiled_spheres(g, next)[k].material.effective() is External
                                            implies has_pair(mat_idx@, compiled_spheres(g, next)[k].material.effective()->External_0, (#[trigger] spheres@[k]).material_idx as usize) by {
                                        assert(spheres@[k] == s_before[k]);
                                        let j = choose|j: int|
                                            0 <= j < mi_before.len() && #[trigger] mi_before[j] == (
                                                cs_before[k].material.effective()->External_0,
                                                s_before[k].material_idx as usize,
                                            );
                                        assert(mat_idx@[j] == mi_before[j]);
                                    }
                                }
                            },
                        }
                    },
                }
            },
            _ => {
                proof {
                    assert(compiled_spheres(g, next) == compiled_spheres(g, prefix));
                    assert(compiled_sphere_ids(g, next) == ids_before);
                    assert(textures@.take(t_before.len() as int) =~= t_before);
                    assert(next.take(prefix.len() as int) == prefix);
                    lemma_images_grow(g, prefix, next, t_before, textures@);
                    lemma_tex_entries_grow(g, prefix, next, ti_before, t_before, textures@);
                    assert forall|x: NodeId| next.contains(x) && g.contains(x) && g.node(x) is Texture implies exists|k: int|
                        0 <= k < tex_idx@.len() && (#[trigger] tex_idx@[k]).0 == x by {
                        assert(x != id);
                        assert(prefix.contains(x));
                    }
                    assert forall|k: int|
                        0 <= k < spheres@.len() && compiled_spheres(g, next)[k].material.effective() is External
                            implies has_pair(mat_idx@, compiled_spheres(g, next)[k].material.effective()->External_0, (#[trigger] spheres@[k]).material_idx as usize) by {
                        assert(spheres@[k] == s_before[k]);
                        let j = choose|j: int|
                            0 <= j < mi_before.len() && #[trigger] mi_before[j] == (
                                cs_before[k].material.effective()->External_0,
                                s_before[k].material_idx as usize,
                            );
                        assert(mat_idx@[j] == mi_before[j]);
                    }
                }
            },
        }
        proof {
            assert forall|x: NodeId| next.contains(x) && g.contains(x) && g.node(x) is Material implies exists|k: int|
                0 <= k < mat_idx@.len() && (#[trigger] mat_idx@[k]).0 == x by {
                if x == id {
                    assert(mat_idx@[mat_idx@.len() - 1].0 == id);
                } else {
                    assert(prefix.contains(x));
                    let k = choose|k: int| 0 <= k < mi_before.len() && (#[trigger] mi_before[k]).0 == x;
                    assert(mat_idx@[k] == mi_before[k]);
                }
            }
        }
        i += 1;
    }
    proof {
        assert(nodes@.take(nodes@.len() as int) == nodes@);
    }
    let ghost tf = textures@;
    let ghost sf = spheres@;
    let ghost mf = materials@;
    let ghost mif = mat_idx@;
    let r = Scene { spheres, materials, textures };
    proof {
        let cs = compiled_spheres(g, nodes@);
        let ids = compiled_sphere_ids(g, nodes@);
        assert(r.spheres@ == sf && r.materials@ == mf);
        assert(r.textures@ == tf);
        assert forall|k: int| 0 <= k < r.spheres@.len() implies texture_refs_ok(
            g,
            nodes@,
            material_owner(cs[k], ids[k]),
            sphere_material_source(g, cs[k]),
            r.materials@[(#[trigger] r.spheres@[k]).material_idx as int],
            r.textures@,
        ) by {
            assert(r.spheres@[k] == sf[k]);
            if cs[k].material.effective() is External {
                let mid = cs[k].material.effective()->External_0;
                assert(has_pair(mif, mid, sf[k].material_idx as usize));
                let j = choose|j: int| 0 <= j < mif.len() && #[trigger] mif[j] == (mid, sf[k].material_idx as usize);
                assert(texture_refs_ok(g, nodes@, mif[j].0, g.node(mif[j].0)->Material_0, mf[mif[j].1 as int], tf));
            }
        }
        assert(r.textures@ == tf);
        assert forall|k: int|
            0 <= k < nodes@.len() && (g.node(#[trigger] nodes@[k]) is Texture) implies exists|t: int|
                0 <= t < r.textures@.len() && texture_matches(
                    #[trigger] r.textures@[t],
                    g.node(nodes@[k])->Texture_0.path@,
                    g.node(nodes@[k])->Texture_0.scale.effective(),
                ) by {
            assert(k < i);
            let t = choose|t: int|
                0 <= t < tf.len() && texture_matches(
                    #[trigger] tf[t],
                    g.node(nodes@[k])->Texture_0.path@,
                    g.node(nodes@[k])->Texture_0.scale.effective(),
                );
            assert(r.textures@[t] == tf[t]);
        }
    }
    r
}

proof fn lemma_distinct_ids_bounded(s: Seq<NodeId>, n: nat)
    requires
        s.no_duplicates(),
        forall|k: int| 0 <= k < s.len() ==> (#[trigger] s[k]).0 < n,
    ensures
        s.len() <= n,
{
    let f = |id: NodeId| id.0 as int;
    let m = s.map_values(f);
    assert(vstd::relations::injective(f)) by {
        assert forall|a: NodeId, b: NodeId| #[trigger] f(a) == #[trigger] f(b) implies a == b by {}
    }
    s.lemma_no_duplicates_injective(f);
    m.unique_seq_to_set();
    vstd::set_lib::lemma_int_range(0, n as int);
    assert(m.to_set().subset_of(vstd::set_lib::set_int_range(0, n as int))) by {
        assert forall|x: int| m.to_set().contains(x) implies vstd::set_lib::set_int_range(0, n as int).contains(x) by {
            let k = choose|k: int| 0 <= k < m.len() && m[k] == x;
            assert(s[k].0 < n);
        }
    }
    vstd::set_lib::lemma_len_subset(m.to_set(), vstd::set_lib::set_int_range(0, n as int));
}

/// Two graphs that hold the same nodes compile the same spheres.
proof fn lemma_compiled_spheres_same_nodes(g1: &Graph, g2: &Graph, skip: NodeId, nodes: Seq<NodeId>)
    requires
        forall|id: NodeId| #[trigger] g1.contains(id) == g2.contains(id),
        forall|id: NodeId| g1.contains(id) && id != skip ==> #[trigger] g1.node(id) == g2.node(id),
        g1.contains(skip) ==> g1.node(skip) is Scene && g2.node(skip) is Scene,
    ensures
        compiled_spheres(g1, nodes) == compiled_spheres(g2, nodes),
        compiled_sphere_ids(g1, nodes) == compiled_sphere_ids(g2, nodes),
    decreases nodes.len(),
{
    if nodes.len() > 0 {
        lemma_compiled_spheres_same_nodes(g1, g2, skip, nodes.drop_last());
        let id = nodes.last();
        if g1.contains(id) && id != skip {
            assert(g1.node(id) == g2.node(id));
            if g1.node(id) is Primitive {
                match g1.node(id)->Primitive_0->Sphere_0.material.effective() {
                    InputMaterial::External(mid) => {
                        if g1.contains(mid) && mid != skip {
                            assert(g1.node(mid) == g2.node(mid));
                        }
                    },
                    _ => {},
                }
            }
        }
    }
}

#[derive(Clone, Copy, Debug, PartialEq, Eq, Structural)]
pub enum SceneNodeMessage {
    Recalculate,
}

#[derive(Clone, Copy, Debug, PartialEq, Eq, Structural)]
pub enum SceneNodeResponse {
    Recalculated,
    Nothing,
}

/// The nodes read, directly or through others, from a scene node's input.
pub open spec fn scene_root(g: &Graph, scene_id: NodeId) -> Option<NodeId> {
    g.node(scene_id)->Scene_0.data.effective()
}

impl SceneNode {
    pub fn handle_self_msg(g: &mut Graph, scene_id: NodeId, msg: SceneNodeMessage) -> (r: SceneNodeResponse)
        requires
            old(g).wf(),
            old(g).contains(scene_id),
            old(g).node(scene_id) is Scene,
            old(g).slots@.len() <= u32::MAX,
            textures_unique(old(g).node(scene_id)->Scene_0.inner_scene.textures@),
        ensures
            final(g).wf(),
            (r == SceneNodeResponse::Nothing) <==> old(g).node(scene_id)->Scene_0.dirty.is_none(),
            r == SceneNodeResponse::Nothing ==> final(g).slots@ == old(g).slots@,
            r == SceneNodeResponse::Recalculated ==> recalculated(*old(g), *final(g), scene_id),
    {
        match msg {
            SceneNodeMessage::Recalculate => Self::handle_recalculate(g, scene_id),
        }
    }

    /// Recompiles the flat scene of the scene node `scene_id` when it is dirty.
    ///
    /// The nodes it reads are collected afresh; each is subscribed to (once) so that
    /// its changes mark this scene dirty, and nodes it no longer reads lose that
    /// subscription. The first compile of a fresh node leaves it fully dirty, so a
    /// second compile follows; any other compile leaves it clean.
    pub fn handle_recalculate(g: &mut Graph, scene_id: NodeId) -> (r: SceneNodeResponse)
        requires
            old(g).wf(),
            old(g).contains(scene_id),
            old(g).node(scene_id) is Scene,
            old(g).slots@.len() <= u32::MAX,
            textures_unique(old(g).node(scene_id)->Scene_0.inner_scene.textures@),
        ensures
            final(g).wf(),
            (r == SceneNodeResponse::Nothing) <==> old(g).node(scene_id)->Scene_0.dirty.is_none(),
            r == SceneNodeResponse::Nothing ==> final(g).slots@ == old(g).slots@,
            r == SceneNodeResponse::Recalculated ==> recalculated(*old(g), *final(g), scene_id),
    {
        let dirty = match g.node_ref(scene_id) {
            Node::Scene(s) => s.dirty,
            _ => unreached(),
        };
        if dirty.is_empty() {
            return SceneNodeResponse::Nothing;
        }
        let ghost g0 = *g;
        let mut old_scene = Scene::empty();
        let mut old_nodes: Vec<NodeId> = Vec::new();
        let root = {
            let e = g.entry_mut(scene_id);
            match &mut e.node {
                Node::Scene(s) => {
                    std::mem::swap(&mut s.inner_scene, &mut old_scene);
                    std::mem::swap(&mut s.tracked_nodes, &mut old_nodes);
                    s.data.get()
                },
                _ => unreached(),
            }
        };
        let ghost g1 = *g;
        proof {
            assert(g1.node(scene_id) is Scene);
            assert forall|i: int|
                0 <= i < g.slots@.len() && (#[trigger] g.slots@[i]) is Some implies g.slots@[i]->Some_0.subscription.wf() by {
                if i != scene_id.0 {
                    assert(g.slots@[i] == g0.slots@[i]);
                }
            }
            assert forall|id: NodeId| #[trigger] g.contains(id) == g0.contains(id) by {}
        }
        let nodes = g.collect(root, NodeFilter::scene_data());
        let mut i: usize = 0;
        while i < nodes.len()
            invariant
                0 <= i <= nodes@.len(),
                g.wf(),
                g.slots@.len() == g1.slots@.len(),
                forall|id: NodeId| #[trigger] g.contains(id) == g1.contains(id),
                forall|id: NodeId|
                    #![trigger g.node(id)]
                    g1.contains(id) ==> g.node(id) == g1.node(id),
                forall|k: int| 0 <= k < nodes@.len() ==> g1.contains(#[trigger] nodes@[k]),
                forall|k: int|
                    0 <= k < i ==> has_entry(
                        g.entry(#[trigger] nodes@[k]).subscription@,
                        scene_id,
                        Event::OnChange,
                    ),
            decreases nodes@.len() - i,
        {
            let n = nodes[i];
            let ghost gb = *g;
            if !g.has_subscription(n, scene_id, Event::OnChange) {
                g.subscribe(n, scene_id, Event::OnChange, Callback::MarkSceneDirty);
                proof {
                    assert(g1.contains(n));
                    assert(gb.contains(n));
                    assert(gb.slots@[n.0 as int] is Some);
                    crate::subscription::lemma_subscribed_has(
                        gb.entry(n).subscription@,
                        scene_id,
                        Event::OnChange,
                        Callback::MarkSceneDirty,
                    );
                }
            }
            proof {
                assert forall|k: int|
                    0 <= k < i + 1 implies has_entry(
                        g.entry(#[trigger] nodes@[k]).subscription@,
                        scene_id,
                        Event::OnChange,
                    ) by {
                    if nodes@[k] != n {
                        assert(g.entry(nodes@[k]) == gb.entry(nodes@[k]));
                    }
                }
            }
            i += 1;
        }
        let mut j: usize = 0;
        while j < old_nodes.len()
            invariant
                0 <= j <= old_nodes@.len(),
                g.wf(),
                g.slots@.len() == g1.slots@.len(),
                forall|id: NodeId| #[trigger] g.contains(id) == g1.contains(id),
                forall|id: NodeId|
                    #![trigger g.node(id)]
                    g1.contains(id) ==> g.node(id) == g1.node(id),
                forall|k: int| 0 <= k < nodes@.len() ==> g1.contains(#[trigger] nodes@[k]),
                forall|k: int|
                    0 <= k < nodes@.len() ==> has_entry(
                        g.entry(#[trigger] nodes@[k]).subscription@,
                        scene_id,
                        Event::OnChange,
                    ),
                forall|k: int|
                    0 <= k < j && g1.contains(#[trigger] old_nodes@[k]) && !nodes@.contains(old_nodes@[k])
                        ==> !has_entry(g.entry(old_nodes@[k]).subscription@, scene_id, Event::OnChange),
            decreases old_nodes@.len() - j,
        {
            let o = old_nodes[j];
            let ghost gb = *g;
            if !contains_id(&nodes, o) && g.contains_node(o) {
                g.unsubscribe(o, scene_id, Event::OnChange);
                proof {
                    assert forall|k: int|
                        0 <= k < nodes@.len() implies has_entry(
                            g.entry(#[trigger] nodes@[k]).subscription@,
                            scene_id,
                            Event::OnChange,
                        ) by {
                        assert(nodes@[k] != o);
                        assert(g.entry(nodes@[k]) == gb.entry(nodes@[k]));
                    }
                }
            }
            proof {
                assert forall|k: int|
                    0 <= k < j + 1 && g1.contains(#[trigger] old_nodes@[k]) && !nodes@.contains(old_nodes@[k])
                        implies !has_entry(g.entry(old_nodes@[k]).subscription@, scene_id, Event::OnChange) by {
                    if old_nodes@[k] != o {
                        if k < j && g.slots@ != gb.slots@ {
                            assert(g.entry(old_nodes@[k]) == gb.entry(old_nodes@[k]));
                        }
                    } else {
                        assert(gb.contains(o));
                    }
                }
            }
            j += 1;
        }
        proof {
            lemma_distinct_ids_bounded(nodes@, g.slots@.len());
            assert forall|id: NodeId| g.contains(id) implies #[trigger] g.node(id) == g.node(id) by {}
        }
        let old_textures = old_scene.textures;
        let scene = build_scene(g, &nodes, old_textures);
        let ghost g2 = *g;
        proof {
            assert(g1.contains(scene_id));
            assert(g2.contains(scene_id));
            assert(g2.node(scene_id) is Scene);
            assert(g2.slots@[scene_id.0 as int] is Some);
        }
        let e = g.entry_mut(scene_id);
        match &mut e.node {
            Node::Scene(s) => {
                s.inner_scene = scene;
                s.tracked_nodes = nodes;
                if s.dirty.bits() == crate::dirty::DIRTY_INIT {
                    s.dirty = SceneDirtyFlags::all();
                } else {
                    s.dirty = SceneDirtyFlags::none();
                }
            },
            _ => unreached(),
        }
        proof {
            assert forall|i: int|
                0 <= i < g.slots@.len() && (#[trigger] g.slots@[i]) is Some implies g.slots@[i]->Some_0.subscription.wf() by {
                if i != scene_id.0 {
                    assert(g.slots@[i] == g2.slots@[i]);
                }
            }
            lemma_compiled_spheres_same_nodes(&g2, &g0, scene_id, g.node(scene_id)->Scene_0.tracked_nodes@);
            {
                let cs = compiled_spheres(&g0, nodes@);
                let sc = g.node(scene_id)->Scene_0.inner_scene;
                assert forall|k: int| 0 <= k < sc.spheres@.len() implies material_kind_matches(
                    sc.materials@[(#[trigger] sc.spheres@[k]).material_idx as int],
                    sphere_material_source(&g0, cs[k]),
                ) by {
                    assert(material_kind_matches(
                        sc.materials@[sc.spheres@[k].material_idx as int],
                        sphere_material_source(&g2, cs[k]),
                    ));
                    if cs[k].material.effective() is External {
                        lemma_compiled_external_is_material(&g2, nodes@, k);
                        let mid = cs[k].material.effective()->External_0;
                        assert(mid != scene_id);
                        assert(g2.node(mid) == g0.node(mid));
                    }
                }
                assert(sphere_materials_ok(&g0, cs, &sc));
                lemma_counts_same_nodes(&g2, &g0, scene_id, nodes@);
                assert forall|t: int| 0 <= t < sc.textures@.len() && (#[trigger] sc.textures@[t]).key is Some implies key_seen(
                    &g0,
                    nodes@,
                    sc.textures@[t].key->Some_0@,
                    sc.textures@[t].scale,
                ) by {
                    assert(key_seen(&g2, nodes@, sc.textures@[t].key->Some_0@, sc.textures@[t].scale));
                }
                let ids = compiled_sphere_ids(&g0, nodes@);
                assert forall|k: int| 0 <= k < sc.spheres@.len() implies texture_refs_ok(
                    &g0,
                    nodes@,
                    material_owner(cs[k], ids[k]),
                    sphere_material_source(&g0, cs[k]),
                    sc.materials@[(#[trigger] sc.spheres@[k]).material_idx as int],
                    sc.textures@,
                ) by {
                    let q = sc.spheres@[k].material_idx as int;
                    assert(texture_refs_ok(
                        &g2,
                        nodes@,
                        material_owner(cs[k], ids[k]),
                        sphere_material_source(&g2, cs[k]),
                        sc.materials@[q],
                        sc.textures@,
                    ));
                    if cs[k].material.effective() is External {
                        lemma_compiled_external_is_material(&g2, nodes@, k);
                        let mid = cs[k].material.effective()->External_0;
                        assert(mid != scene_id);
                        assert(g2.node(mid) == g0.node(mid));
                    }
                    lemma_texture_refs_same(
                        &g2,
                        &g0,
                        scene_id,
                        nodes@,
                        material_owner(cs[k], ids[k]),
                        sphere_material_source(&g0, cs[k]),
                        sc.materials@[q],
                        sc.textures@,
                    );
                }
            }
            let gf = *g;
            let old_node = g0.node(scene_id)->Scene_0;
            let kept = gf.node(scene_id)->Scene_0.tracked_nodes@;
            assert(kept == nodes@);
            assert(gf.slots@.len() == g0.slots@.len());
            assert forall|id: NodeId| #[trigger] gf.contains(id) == g0.contains(id) by {
                assert(g2.contains(id) == g0.contains(id));
            }
            assert forall|id: NodeId| g0.contains(id) && id != scene_id implies #[trigger] gf.node(id) == g0.node(id) by {
                assert(g2.contains(id));
                assert(g2.node(id) == g1.node(id));
                assert(g1.slots@[id.0 as int] == g0.slots@[id.0 as int]);
            }
            assert(gf.node(scene_id) is Scene);
            assert(gf.node(scene_id)->Scene_0.data == old_node.data);
            assert(gf.node(scene_id)->Scene_0.dirty == old_node.dirty.after_compile());
            assert forall|k: int| 0 <= k < kept.len() implies has_entry(
                gf.entry(#[trigger] kept[k]).subscription@,
                scene_id,
                Event::OnChange,
            ) by {
                if kept[k] != scene_id {
                    assert(gf.entry(kept[k]) == g2.entry(kept[k]));
                }
            }
            assert(old_node.inner_scene.textures@ == old_scene.textures@);
            assert(old_node.tracked_nodes@ == old_nodes@);
            assert forall|k: int|
                0 <= k < old_nodes@.len() && g0.contains(#[trigger] old_nodes@[k]) && !kept.contains(old_nodes@[k])
                    implies !has_entry(gf.entry(old_nodes@[k]).subscription@, scene_id, Event::OnChange) by {
                assert(g1.contains(old_nodes@[k]));
                if old_nodes@[k] != scene_id {
                    assert(gf.entry(old_nodes@[k]) == g2.entry(old_nodes@[k]));
                }
            }
            assert forall|k: int| 0 <= k < kept.len() implies g0.contains(#[trigger] kept[k]) && filter_accepts(
                NodeFilter::scene_data_spec(),
                &g0.node(kept[k]),
            ) by {
                assert(g1.contains(kept[k]));
                assert(filter_accepts(NodeFilter::scene_data_spec(), &g1.node(kept[k])));
                assert(kept[k] != scene_id);
                assert(g1.slots@[kept[k].0 as int] == g0.slots@[kept[k].0 as int]);
            }
            assert forall|id: NodeId| g1.contains(id) implies #[trigger] children(&g1.node(id)) == children(&g0.node(id)) by {
                if id.0 != scene_id.0 {
                    assert(g1.slots@[id.0 as int] == g0.slots@[id.0 as int]);
                } else {
                    assert(id == scene_id);
                }
            }
            assert forall|id: NodeId| #[trigger] g1.contains(id) == g0.contains(id) by {}
            assert forall|k: int, cc: NodeId|
                0 <= k < kept.len() && #[trigger] children(&g0.node(kept[k])).contains(cc) && g0.contains(cc)
                    && filter_accepts(NodeFilter::scene_data_spec(), &g0.node(cc)) implies (exists|jj: int|
                    0 <= jj < k && kept[jj] == cc) || reachable(g0, cc, kept[k]) by {
                assert(g1.contains(kept[k]));
                assert(kept[k] != scene_id);
                assert(children(&g1.node(kept[k])) == children(&g0.node(kept[k])));
                assert(cc != scene_id);
                assert(g1.slots@[cc.0 as int] == g0.slots@[cc.0 as int]);
                assert(filter_accepts(NodeFilter::scene_data_spec(), &g1.node(cc)));
                crate::graph::lemma_reachable_same_children(g1, g0, cc, kept[k]);
            }
            if old_node.data.effective() is Some {
                let rid = old_node.data.effective()->Some_0;
                assert(root == Some(rid));
                assert forall|k: int| 0 <= k < kept.len() implies reachable(g0, rid, #[trigger] kept[k]) by {
                    crate::graph::lemma_reachable_same_children(g1, g0, rid, kept[k]);
                }
                if g0.contains(rid) {
                    assert forall|x: NodeId|
                        g0.contains(x) && #[trigger] reachable(g0, rid, x) && filter_accepts(
                            NodeFilter::scene_data_spec(),
                            &g0.node(x),
                        ) implies kept.contains(x) by {
                        crate::graph::lemma_reachable_same_children(g1, g0, rid, x);
                        assert(g1.contains(x));
                        if x != scene_id {
                            assert(g1.slots@[x.0 as int] == g0.slots@[x.0 as int]);
                        }
                    }
                }
            }
            let scene = gf.node(scene_id)->Scene_0.inner_scene;
            assert(scene.wf());
            assert(reuses_old(scene.textures@, old_node.inner_scene.textures@));
            assert forall|k: int|
                0 <= k < kept.len() && (g0.node(#[trigger] kept[k]) is Texture) implies exists|t: int|
                    0 <= t < scene.textures@.len() && texture_matches(
                        #[trigger] scene.textures@[t],
                        g0.node(kept[k])->Texture_0.path@,
                        g0.node(kept[k])->Texture_0.scale.effective(),
                    ) by {
                assert(g1.contains(kept[k]));
                assert(kept[k] != scene_id);
                assert(g1.slots@[kept[k].0 as int] == g0.slots@[kept[k].0 as int]);
                assert(g2.node(kept[k]) == g1.node(kept[k]));
            }
        }
        SceneNodeResponse::Recalculated
    }
}

fn contains_id(v: &Vec<NodeId>, id: NodeId) -> (r: bool)
    ensures
        r == v@.contains(id),
{
    let mut i: usize = 0;
    while i < v.len()
        invariant
            0 <= i <= v@.len(),
            forall|k: int| 0 <= k < i ==> v@[k] != id,
        decreases v@.len() - i,
    {
        if v[i] == id {
            return true;
        }
        i += 1;
    }
    false
}

/// What a compile that ran leaves behind: the scene node keeps its input, its
/// flags move on, its kept nodes are those its input reads (each subscribed to
/// it), and its flat scene is well formed, built from those nodes, with decoded
/// textures carried over. Other nodes keep their contents.
pub open spec fn recalculated(before: Graph, after: Graph, scene_id: NodeId) -> bool {
    let old_node = before.node(scene_id)->Scene_0;
    let kept = after.node(scene_id)->Scene_0.tracked_nodes@;
    let scene = after.node(scene_id)->Scene_0.inner_scene;
    &&& after.slots@.len() == before.slots@.len()
    &&& forall|id: NodeId| #[trigger] after.contains(id) == before.contains(id)
    &&& forall|id: NodeId|
        #![trigger after.node(id)]
        before.contains(id) && id != scene_id ==> after.node(id) == before.node(id)
    &&& after.node(scene_id) is Scene
    &&& after.node(scene_id)->Scene_0.data == old_node.data
    &&& after.node(scene_id)->Scene_0.dirty == old_node.dirty.after_compile()
    &&& forall|k: int|
        0 <= k < old_node.tracked_nodes@.len() && before.contains(#[trigger] old_node.tracked_nodes@[k])
            && !kept.contains(old_node.tracked_nodes@[k]) ==> !has_entry(
            after.entry(old_node.tracked_nodes@[k]).subscription@,
            scene_id,
            Event::OnChange,
        )
    &&& kept.no_duplicates()
    &&& forall|k: int|
        0 <= k < kept.len() ==> before.contains(#[trigger] kept[k]) && filter_accepts(
            NodeFilter::scene_data_spec(),
            &before.node(kept[k]),
        ) && has_entry(after.entry(kept[k]).subscription@, scene_id, Event::OnChange)
    &&& children_first(before, NodeFilter::scene_data_spec(), kept, 0)
    &&& old_node.data.effective() is None ==> kept.len() == 0
    &&& old_node.data.effective() is Some ==> forall|k: int|
        0 <= k < kept.len() ==> reachable(before, old_node.data.effective()->Some_0, #[trigger] kept[k])
    &&& old_node.data.effective() is Some && before.contains(old_node.data.effective()->Some_0) ==> forall|x: NodeId|
        before.contains(x) && #[trigger] reachable(before, old_node.data.effective()->Some_0, x) && filter_accepts(
            NodeFilter::scene_data_spec(),
            &before.node(x),
        ) ==> kept.contains(x)
    &&& scene.wf()
    &&& sphere_materials_ok(&before, compiled_spheres(&before, kept), &scene)
    &&& sphere_textures_ok(&before, kept, &scene)
    &&& scene.materials@.len() == material_count(&before, kept)
    &&& scene.textures@.len() == texture_count(&before, kept)
    &&& images_from_nodes(&before, kept, scene.textures@)
    &&& reuses_old(scene.textures@, old_node.inner_scene.textures@)
    &&& scene.spheres@.len() == compiled_spheres(&before, kept).len()
    &&& forall|k: int|
        0 <= k < scene.spheres@.len() ==> (#[trigger] scene.spheres@[k]).center == compiled_spheres(
            &before,
            kept,
        )[k].center.effective() && scene.spheres@[k].radius == compiled_spheres(&before, kept)[k].radius.effective()
    &&& forall|k: int|
        0 <= k < kept.len() && (before.node(#[trigger] kept[k]) is Texture) ==> exists|t: int|
            0 <= t < scene.textures@.len() && texture_matches(
                #[trigger] scene.textures@[t],
                before.node(kept[k])->Texture_0.path@,
                before.node(kept[k])->Texture_0.scale.effective(),
            )
}

/// One compile leaves a dirty scene node clean, except the first compile of a
/// fresh node, which leaves it fully dirty; a second compile then cleans it.
pub proof fn lemma_compile_flags(flags: SceneDirtyFlags)
    requires
        !flags.is_none(),
    ensures
        flags.is_init() ==> flags.after_compile().is_all(),
        !flags.is_init() ==> flags.after_compile().is_none(),
        flags.after_compile().after_compile().is_none(),
{
}

/// Compiling again with no change in between does nothing: after a compile that
/// did not start from the fresh state the node is clean, so the next
/// `handle_recalculate` answers `Nothing` and leaves the graph as it is. From the
/// fresh state this holds after the second compile.
pub proof fn lemma_recalculate_idempotent(first: Graph, second: Graph, third: Graph, scene_id: NodeId)
    requires
        first.contains(scene_id),
        first.node(scene_id) is Scene,
        !first.node(scene_id)->Scene_0.dirty.is_none(),
        recalculated(first, second, scene_id),
        !second.node(scene_id)->Scene_0.dirty.is_none() ==> recalculated(second, third, scene_id),
    ensures
        !first.node(scene_id)->Scene_0.dirty.is_init() ==> second.node(scene_id)->Scene_0.dirty.is_none(),
        first.node(scene_id)->Scene_0.dirty.is_init() ==> third.node(scene_id)->Scene_0.dirty.is_none(),
{
    lemma_compile_flags(first.node(scene_id)->Scene_0.dirty);
}

/// A texture node compiled again with the path and scale it had is given the very
/// texture the previous compile held for it, decoded texels included, so no image
/// is decoded a second time.
pub proof fn lemma_texture_reused(before: Graph, after: Graph, scene_id: NodeId, k: int, j: int)
    requires
        recalculated(before, after, scene_id),
        0 <= k < after.node(scene_id)->Scene_0.tracked_nodes@.len(),
        before.node(after.node(scene_id)->Scene_0.tracked_nodes@[k]) is Texture,
        0 <= j < before.node(scene_id)->Scene_0.inner_scene.textures@.len(),
        texture_matches(
            before.node(scene_id)->Scene_0.inner_scene.textures@[j],
            before.node(after.node(scene_id)->Scene_0.tracked_nodes@[k])->Texture_0.path@,
            before.node(after.node(scene_id)->Scene_0.tracked_nodes@[k])->Texture_0.scale.effective(),
        ),
    ensures
        exists|t: int|
            0 <= t < after.node(scene_id)->Scene_0.inner_scene.textures@.len()
                && #[trigger] after.node(scene_id)->Scene_0.inner_scene.textures@[t]
                == before.node(scene_id)->Scene_0.inner_scene.textures@[j],
{
    let kept = after.node(scene_id)->Scene_0.tracked_nodes@;
    let new_t = after.node(scene_id)->Scene_0.inner_scene.textures@;
    let old_t = before.node(scene_id)->Scene_0.inner_scene.textures@;
    let id = kept[k];
    let t = choose|t: int|
        0 <= t < new_t.len() && texture_matches(
            #[trigger] new_t[t],
            before.node(id)->Texture_0.path@,
            before.node(id)->Texture_0.scale.effective(),
        );
    assert(new_t[t].key is Some);
    assert(texture_matches(old_t[j], new_t[t].key->Some_0@, new_t[t].scale));
    assert(new_t[t] == old_t[j]);
}

} // verus!

use vstd::prelude::*;
use crate::dirty::SceneDirtyFlags;
use crate::graph::{lemma_notified_from_earlier, notified_all, same_but_dirty, Graph, NodeEntry};
use crate::node::{
    RaytracerRenderNode, RenderNode, CheckerboardNode, CollectionNode, DielectricNode, EmissiveNode, InputMaterial, LambertianNode, MaterialNode, MetalNode, Node, NodeId, PrimitiveNode,
    SceneNode, SphereNode,
};
use crate::pin::NodePin;
use crate::subscription::{has_entry, Event};

verus! {

pub open spec fn pin_set<T>(p: NodePin<T>, v: T) -> NodePin<T> {
    NodePin { initial: p.initial, value: Some(v) }
}

pub open spec fn pin_reset<T>(p: NodePin<T>) -> NodePin<T> {
    NodePin { initial: p.initial, value: None }
}

/// A scene node after its input changed: its flags are all set, the rest kept.
pub open spec fn scene_rewired(b: SceneNode, a: SceneNode, data: NodePin<Option<NodeId>>) -> bool {
    &&& a.data == data
    &&& a.dirty.is_all()
    &&& a.inner_scene == b.inner_scene
    &&& a.tracked_nodes == b.tracked_nodes
}

/// `after` is `before` once the output of `from` is wired into input `input`.
/// Inputs that carry a node id take it; value inputs get their value elsewhere.
pub open spec fn connected(before: Node, after: Node, from: NodeId, input: usize) -> bool {
    match before {
        Node::Scene(b) => if input == 0 {
            after is Scene && scene_rewired(b, after->Scene_0, pin_set(b.data, Some(from)))
        } else {
            same_but_dirty(before, after)
        },
        Node::Material(MaterialNode::Metal(b)) => after == if input == 2 {
            Node::Material(MaterialNode::Metal(MetalNode { texture: pin_set(b.texture, Some(from)), ..b }))
        } else {
            before
        },
        Node::Material(MaterialNode::Lambertian(b)) => after == if input == 1 {
            Node::Material(MaterialNode::Lambertian(LambertianNode { texture: pin_set(b.texture, Some(from)), ..b }))
        } else {
            before
        },
        Node::Material(MaterialNode::Emissive(b)) => after == if input == 1 {
            Node::Material(MaterialNode::Emissive(EmissiveNode { texture: pin_set(b.texture, Some(from)), ..b }))
        } else {
            before
        },
        Node::Primitive(PrimitiveNode::Sphere(b)) => after == if input == 2 {
            Node::Primitive(
                PrimitiveNode::Sphere(SphereNode { material: pin_set(b.material, InputMaterial::External(from)), ..b }),
            )
        } else {
            before
        },
        Node::Render(RenderNode::Raytracer(b)) => after == Node::Render(
            RenderNode::Raytracer(
                if input == 3 {
                    RaytracerRenderNode { camera: pin_set(b.camera, Some(from)), ..b }
                } else if input == 4 {
                    RaytracerRenderNode { scene: Some(from), ..b }
                } else {
                    b
                },
            ),
        ),
        Node::Collection(b) => if input <= b.nodes@.len() && b.wf() {
            after is Collection && after->Collection_0.nodes@ == b.nodes@.insert(input as int, from)
                && after->Collection_0.wf()
        } else {
            after == before
        },
        _ => after == before,
    }
}

/// `after` is `before` once input `input` lost its connection: the pin falls back
/// to its own value, a collection drops the entry.
pub open spec fn disconnected(before: Node, after: Node, input: usize) -> bool {
    match before {
        Node::Scene(b) => if input == 0 {
            after is Scene && scene_rewired(b, after->Scene_0, pin_reset(b.data))
        } else {
            same_but_dirty(before, after)
        },
        Node::Material(MaterialNode::Metal(b)) => after == Node::Material(
            MaterialNode::Metal(
                if input == 0 {
                    MetalNode { albedo: pin_reset(b.albedo), ..b }
                } else if input == 1 {
                    MetalNode { fuzz: pin_reset(b.fuzz), ..b }
                } else if input == 2 {
                    MetalNode { texture: pin_reset(b.texture), ..b }
                } else {
                    b
                },
            ),
        ),
        Node::Material(MaterialNode::Lambertian(b)) => after == Node::Material(
            MaterialNode::Lambertian(
                if input == 0 {
                    LambertianNode { albedo: pin_reset(b.albedo), ..b }
                } else if input == 1 {
                    LambertianNode { texture: pin_reset(b.texture), ..b }
                } else {
                    b
                },
            ),
        ),
        Node::Material(MaterialNode::Emissive(b)) => after == Node::Material(
            MaterialNode::Emissive(
                if input == 0 {
                    EmissiveNode { emit: pin_reset(b.emit), ..b }
                } else if input == 1 {
                    EmissiveNode { texture: pin_reset(b.texture), ..b }
                } else {
                    b
                },
            ),
        ),
        Node::Material(MaterialNode::Checkerboard(b)) => after == Node::Material(
            MaterialNode::Checkerboard(
                if input == 0 {
                    CheckerboardNode { even: pin_reset(b.even), ..b }
                } else if input == 1 {
                    CheckerboardNode { odd: pin_reset(b.odd), ..b }
                } else {
                    b
                },
            ),
        ),
        Node::Material(MaterialNode::Dielectric(b)) => after == Node::Material(
            MaterialNode::Dielectric(
                if input == 0 {
                    DielectricNode { ior: pin_reset(b.ior) }
                } else {
                    b
                },
            ),
        ),
        Node::Texture(b) => if input == 0 {
            after is Texture && after->Texture_0.path == b.path && after->Texture_0.scale == pin_reset(b.scale)
        } else {
            after == before
        },
        Node::Primitive(PrimitiveNode::Sphere(b)) => after == Node::Primitive(
            PrimitiveNode::Sphere(
                if input == 0 {
                    SphereNode { center: pin_reset(b.center), ..b }
                } else if input == 1 {
                    SphereNode { radius: pin_reset(b.radius), ..b }
                } else if input == 2 {
                    SphereNode { material: pin_reset(b.material), ..b }
                } else {
                    b
                },
            ),
        ),
        Node::Render(RenderNode::Raytracer(b)) => after == Node::Render(
            RenderNode::Raytracer(
                if input == 0 {
                    RaytracerRenderNode { max_samples_per_pixel: pin_reset(b.max_samples_per_pixel), ..b }
                } else if input == 1 {
                    RaytracerRenderNode { num_samples_per_pixel: pin_reset(b.num_samples_per_pixel), ..b }
                } else if input == 2 {
                    RaytracerRenderNode { num_bounces: pin_reset(b.num_bounces), ..b }
                } else if input == 3 {
                    RaytracerRenderNode { camera: pin_reset(b.camera), ..b }
                } else if input == 4 {
                    RaytracerRenderNode { scene: None, disconnect_scene: true, ..b }
                } else {
                    b
                },
            ),
        ),
        Node::Collection(b) => if input < b.nodes@.len() && b.wf() {
            after is Collection && after->Collection_0.nodes@ == b.nodes@.remove(input as int)
                && after->Collection_0.wf()
        } else {
            after == before
        },
        _ => after == before,
    }
}

impl Graph {
    /// Mutable access to a node; its subscriptions and every other slot stay as they are.
    pub fn node_mut(&mut self, id: NodeId) -> (r: &mut Node)
        requires
            old(self).contains(id),
        ensures
            *r == old(self).node(id),
            final(self).slots@ == old(self).slots@.update(
                id.0 as int,
                Some(NodeEntry { node: *final(r), subscription: old(self).entry(id).subscription }),
            ),
    {
        let e = self.entry_mut(id);
        &mut e.node
    }

    /// Tells the subscribers of `id` that its value changed.
    pub fn notify_changed(&mut self, id: NodeId)
        requires
            old(self).wf(),
            old(self).contains(id),
        ensures
            final(self).wf(),
            forall|other: NodeId| #[trigger] final(self).contains(other) == old(self).contains(other),
            forall|other: NodeId|
                #![trigger final(self).node(other)]
                old(self).contains(other) ==> same_but_dirty(old(self).node(other), final(self).node(other)),
            notified_all(*old(self), *final(self), id, Event::OnChange),
    {
        self.notify(id, Event::OnChange);
    }

    /// Wires the output of `from` into input `input` of `to`, then tells the
    /// subscribers of `to`.
    pub fn connect_input(&mut self, from: NodeId, to: NodeId, input: usize)
        requires
            old(self).wf(),
            old(self).contains(to),
        ensures
            final(self).wf(),
            forall|other: NodeId| #[trigger] final(self).contains(other) == old(self).contains(other),
            connected(old(self).node(to), final(self).node(to), from, input),
            notified_all(*old(self), *final(self), to, Event::OnChange),
            forall|other: NodeId|
                #![trigger final(self).node(other)]
                old(self).contains(other) && other != to ==> same_but_dirty(
                    old(self).node(other),
                    final(self).node(other),
                ),
    {
        let ghost g0 = *self;
        {
            let e = self.entry_mut(to);
            match &mut e.node {
                Node::Scene(s) => {
                    if input == 0 {
                        s.data.set(Some(from));
                        s.dirty = SceneDirtyFlags::all();
                    }
                },
                Node::Material(MaterialNode::Metal(m)) => {
                    if input == 2 {
                        m.texture.set(Some(from));
                    }
                },
                Node::Material(MaterialNode::Lambertian(m)) => {
                    if input == 1 {
                        m.texture.set(Some(from));
                    }
                },
                Node::Material(MaterialNode::Emissive(m)) => {
                    if input == 1 {
                        m.texture.set(Some(from));
                    }
                },
                Node::Primitive(PrimitiveNode::Sphere(sp)) => {
                    if input == 2 {
                        sp.material.set(InputMaterial::External(from));
                    }
                },
                Node::Render(RenderNode::Raytracer(r)) => {
                    if input == 3 {
                        r.camera.set(Some(from));
                    } else if input == 4 {
                        r.scene = Some(from);
                    }
                },
                Node::Collection(c) => {
                    if input <= c.nodes.len() && c.inputs.len() > c.nodes.len() && c.inputs.len() - 1 == c.nodes.len() {
                        c.insert(input, from);
                    }
                },
                _ => {},
            }
        }
        let ghost g1 = *self;
        proof {
            assert(connected(g0.node(to), g1.node(to), from, input));
            assert forall|i: int|
                0 <= i < self.slots@.len() && (#[trigger] self.slots@[i]) is Some implies self.slots@[i]->Some_0.subscription.wf() by {
                if i != to.0 {
                    assert(self.slots@[i] == g0.slots@[i]);
                }
            }
        }
        self.notify(to, Event::OnChange);
        proof {
            assert(g1.contains(to));
            assert(g1.entry(to).subscription == g0.entry(to).subscription);
            assert forall|x: NodeId| #[trigger] g0.contains(x) == g1.contains(x) by {
                if x.0 < g0.slots@.len() && x != to {
                    assert(g1.slots@[x.0 as int] == g0.slots@[x.0 as int]);
                }
            }
            assert forall|x: NodeId| g0.contains(x) implies ((#[trigger] g0.node(x) is Scene) <==> g1.node(x) is Scene) by {
                if x != to {
                    assert(g1.slots@[x.0 as int] == g0.slots@[x.0 as int]);
                }
            }
            lemma_notified_from_earlier(g0, g1, *self, to, Event::OnChange);
            assert(same_but_dirty(g1.node(to), self.node(to)));
            assert forall|other: NodeId|
                #![trigger self.node(other)]
                g0.contains(other) && other != to implies same_but_dirty(g0.node(other), self.node(other)) by {
                assert(g1.slots@[other.0 as int] == g0.slots@[other.0 as int]);
                assert(g1.contains(other));
            }
        }
        let attaches_scene = match self.node_ref(to) {
            Node::Render(_) => input == 4 && from != to,
            _ => false,
        };
        if attaches_scene {
            let ghost g2 = *self;
            // a renderer was attached: its scene must be compiled in full
            self.mark_scene_dirty(from, SceneDirtyFlags::all());
            proof {
                assert(self.entry(to) == g2.entry(to));
                assert forall|k: int|
                    0 <= k < crate::subscription::notified(g0.entry(to).subscription@, Event::OnChange).len() implies {
                    let s = (#[trigger] crate::subscription::notified(g0.entry(to).subscription@, Event::OnChange)[k]).0;
                    &&& g0.contains(s) && g0.node(s) is Scene ==> self.node(s) is Scene && self.node(s)->Scene_0.dirty.is_all()
                    &&& !(g0.contains(s) && g0.node(s) is Scene) ==> !has_entry(self.entry(to).subscription@, s, Event::OnChange)
                } by {
                    let s = crate::subscription::notified(g0.entry(to).subscription@, Event::OnChange)[k].0;
                    if g0.contains(s) && g0.node(s) is Scene && s != from {
                        assert(self.entry(s) == g2.entry(s));
                    }
                }
                assert forall|other: NodeId|
                    #![trigger self.node(other)]
                    g0.contains(other) && other != to implies same_but_dirty(g0.node(other), self.node(other)) by {
                    assert(same_but_dirty(g0.node(other), g2.node(other)));
                    if other != from {
                        assert(self.entry(other) == g2.entry(other));
                    }
                }
            }
        }
    }

    /// Cuts the connection into input `input` of `to`, then tells the subscribers of `to`.
    pub fn disconnect_input(&mut self, to: NodeId, input: usize)
        requires
            old(self).wf(),
            old(self).contains(to),
        ensures
            final(self).wf(),
            forall|other: NodeId| #[trigger] final(self).contains(other) == old(self).contains(other),
            disconnected(old(self).node(to), final(self).node(to), input),
            notified_all(*old(self), *final(self), to, Event::OnChange),
            forall|other: NodeId|
                #![trigger final(self).node(other)]
                old(self).contains(other) && other != to ==> same_but_dirty(
                    old(self).node(other),
                    final(self).node(other),
                ),
    {
        let ghost g0 = *self;
        {
            let e = self.entry_mut(to);
            match &mut e.node {
                Node::Scene(s) => {
                    if input == 0 {
                        s.data.reset();
                        s.dirty = SceneDirtyFlags::all();
                    }
                },
                Node::Material(MaterialNode::Metal(m)) => {
                    if input == 0 {
                        m.albedo.reset();
                    } else if input == 1 {
                        m.fuzz.reset();
                    } else if input == 2 {
                        m.texture.reset();
                    }
                },
                Node::Material(MaterialNode::Lambertian(m)) => {
                    if input == 0 {
                        m.albedo.reset();
                    } else if input == 1 {
                        m.texture.reset();
                    }
                },
                Node::Material(MaterialNode::Emissive(m)) => {
                    if input == 0 {
                        m.emit.reset();
                    } else if input == 1 {
                        m.texture.reset();
                    }
                },
                Node::Material(MaterialNode::Checkerboard(m)) => {
                    if input == 0 {
                        m.even.reset();
                    } else if input == 1 {
                        m.odd.reset();
                    }
                },
                Node::Material(MaterialNode::Dielectric(m)) => {
                    if input == 0 {
                        m.ior.reset();
                    }
                },
                Node::Texture(t) => {
                    if input == 0 {
                        t.scale.reset();
                    }
                },
                Node::Render(RenderNode::Raytracer(r)) => {
                    if input == 0 {
                        r.max_samples_per_pixel.reset();
                    } else if input == 1 {
                        r.num_samples_per_pixel.reset();
                    } else if input == 2 {
                        r.num_bounces.reset();
                    } else if input == 3 {
                        r.camera.reset();
                    } else if input == 4 {
                        r.scene = None;
                        r.disconnect_scene = true;
                    }
                },
                Node::Primitive(PrimitiveNode::Sphere(sp)) => {
                    if input == 0 {
                        sp.center.reset();
                    } else if input == 1 {
                        sp.radius.reset();
                    } else if input == 2 {
                        sp.material.reset();
                    }
                },
                Node::Collection(c) => {
                    if input < c.nodes.len() && c.inputs.len() > c.nodes.len() && c.inputs.len() - 1
                        == c.nodes.len() {
                        c.remove(input);
                    }
                },
                _ => {},
            }
        }
        let ghost g1 = *self;
        proof {
            assert(disconnected(g0.node(to), g1.node(to), input));
            assert forall|i: int|
                0 <= i < self.slots@.len() && (#[trigger] self.slots@[i]) is Some implies self.slots@[i]->Some_0.subscription.wf() by {
                if i != to.0 {
                    assert(self.slots@[i] == g0.slots@[i]);
                }
            }
        }
        self.notify(to, Event::OnChange);
        proof {
            assert(g1.contains(to));
            assert(g1.entry(to).subscription == g0.entry(to).subscription);
            assert forall|x: NodeId| #[trigger] g0.contains(x) == g1.contains(x) by {
                if x.0 < g0.slots@.len() && x != to {
                    assert(g1.slots@[x.0 as int] == g0.slots@[x.0 as int]);
                }
            }
            assert forall|x: NodeId| g0.contains(x) implies ((#[trigger] g0.node(x) is Scene) <==> g1.node(x) is Scene) by {
                if x != to {
                    assert(g1.slots@[x.0 as int] == g0.slots@[x.0 as int]);
                }
            }
            lemma_notified_from_earlier(g0, g1, *self, to, Event::OnChange);
            assert(same_but_dirty(g1.node(to), self.node(to)));
            assert forall|other: NodeId|
                #![trigger self.node(other)]
                g0.contains(other) && other != to implies same_but_dirty(g0.node(other), self.node(other)) by {
                assert(g1.slots@[other.0 as int] == g0.slots@[other.0 as int]);
                assert(g1.contains(other));
            }
        }
    }
}

} // verus!

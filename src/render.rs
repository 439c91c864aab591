use vstd::prelude::*;
use crate::compile::{recalculated, SceneNodeResponse};
use crate::graph::Graph;
use crate::node::{Node, NodeId, RaytracerRenderNode, RenderNode, SceneNode};
use crate::scene::textures_unique;

verus! {

/// Which scene the GPU side is to upload this frame.
#[derive(Clone, Copy, Debug, PartialEq, Eq, Structural)]
pub enum SceneUpload {
    /// The scene node with this id was just recompiled: upload its flat scene.
    Compiled(NodeId),
    /// The scene input was cut: upload the placeholder scene.
    Stub,
    /// Keep what the GPU holds.
    Unchanged,
}

/// Every scene node's image textures are unique, as a compile leaves them.
pub open spec fn scenes_wf(g: Graph) -> bool {
    forall|id: NodeId|
        #![trigger g.node(id)]
        g.contains(id) && g.node(id) is Scene ==> textures_unique(g.node(id)->Scene_0.inner_scene.textures@)
}

proof fn lemma_scenes_wf_after_recalculate(before: Graph, after: Graph, sid: NodeId)
    requires
        scenes_wf(before),
        recalculated(before, after, sid),
    ensures
        scenes_wf(after),
{
    assert forall|id: NodeId|
        #![trigger after.node(id)]
        after.contains(id) && after.node(id) is Scene implies textures_unique(
            after.node(id)->Scene_0.inner_scene.textures@,
        ) by {
        if id != sid {
            assert(before.contains(id));
            assert(after.node(id) == before.node(id));
        } else {
            let sc = after.node(sid)->Scene_0.inner_scene;
            assert(sc.wf());
        }
    }
}

impl RaytracerRenderNode {
    /// Whether a camera node is wired in: frames are painted only then.
    pub fn camera_wired(&self, g: &Graph) -> (r: bool)
        ensures
            r == (self.camera.effective() is Some && g.contains(self.camera.effective()->Some_0)),
    {
        match self.camera.get() {
            Some(id) => g.contains_node(id),
            None => false,
        }
    }

    /// The per-frame decision of the render node `render_id`: recompile its scene
    /// if that is dirty, fall back to the placeholder scene once after the scene
    /// was disconnected, and otherwise leave the uploaded scene alone.
    pub fn draw(g: &mut Graph, render_id: NodeId) -> (r: SceneUpload)
        requires
            old(g).wf(),
            old(g).contains(render_id),
            old(g).node(render_id) is Render,
            old(g).slots@.len() <= u32::MAX,
            scenes_wf(*old(g)),
        ensures
            final(g).wf(),
            scenes_wf(*final(g)),
            ({
                let rn = old(g).node(render_id)->Render_0->Raytracer_0;
                let wired = rn.scene is Some && old(g).contains(rn.scene->Some_0) && old(g).node(
                    rn.scene->Some_0,
                ) is Scene;
                &&& wired && old(g).node(rn.scene->Some_0)->Scene_0.dirty.is_none() ==> r == SceneUpload::Unchanged
                    && final(g).slots@ == old(g).slots@
                &&& wired && !old(g).node(rn.scene->Some_0)->Scene_0.dirty.is_none() ==> r == SceneUpload::Compiled(
                    rn.scene->Some_0,
                ) && recalculated(*old(g), *final(g), rn.scene->Some_0)
                &&& !wired && rn.scene is None && rn.disconnect_scene ==> r == SceneUpload::Stub && final(g).slots@
                    == old(g).slots@.update(
                    render_id.0 as int,
                    Some(
                        crate::graph::NodeEntry {
                            node: Node::Render(
                                RenderNode::Raytracer(RaytracerRenderNode { disconnect_scene: false, ..rn }),
                            ),
                            subscription: old(g).entry(render_id).subscription,
                        },
                    ),
                )
                &&& !wired && !(rn.scene is None && rn.disconnect_scene) ==> r == SceneUpload::Unchanged
                    && final(g).slots@ == old(g).slots@
            }),
    {
        let ghost g0 = *g;
        let rn: RaytracerRenderNode = match g.node_ref(render_id) {
            Node::Render(RenderNode::Raytracer(r)) => *r,
            _ => unreached(),
        };
        match rn.scene {
            Some(sid) => {
                let is_scene = match g.get_node(sid) {
                    Some(Node::Scene(_)) => true,
                    _ => false,
                };
                if !is_scene {
                    return SceneUpload::Unchanged;
                }
                match SceneNode::handle_recalculate(g, sid) {
                    SceneNodeResponse::Recalculated => {
                        proof {
                            lemma_scenes_wf_after_recalculate(g0, *g, sid);
                        }
                        SceneUpload::Compiled(sid)
                    },
                    SceneNodeResponse::Nothing => {
                        proof {
                            assert forall|id: NodeId|
                                #![trigger g.node(id)]
                                g.contains(id) && g.node(id) is Scene implies textures_unique(
                                    g.node(id)->Scene_0.inner_scene.textures@,
                                ) by {
                                assert(g.slots@[id.0 as int] == g0.slots@[id.0 as int]);
                                assert(g0.contains(id));
                                assert(g.node(id) == g0.node(id));
                            }
                        }
                        SceneUpload::Unchanged
                    },
                }
            },
            None => {
                if rn.disconnect_scene {
                    let n = g.node_mut(render_id);
                    match n {
                        Node::Render(RenderNode::Raytracer(r)) => {
                            r.disconnect_scene = false;
                        },
                        _ => {},
                    }
                    proof {
                        assert forall|i: int|
                            0 <= i < g.slots@.len() && (#[trigger] g.slots@[i]) is Some implies g.slots@[i]->Some_0.subscription.wf() by {
                            if i != render_id.0 {
                                assert(g.slots@[i] == g0.slots@[i]);
                            }
                        }
                        assert(g.node(render_id) is Render);
                        assert forall|id: NodeId|
                            #![trigger g.node(id)]
                            g.contains(id) && g.node(id) is Scene implies textures_unique(
                                g.node(id)->Scene_0.inner_scene.textures@,
                            ) by {
                            if id.0 == render_id.0 {
                                assert(id == render_id);
                            }
                            assert(id.0 != render_id.0);
                            assert(g.slots@[id.0 as int] == g0.slots@[id.0 as int]);
                            assert(g0.contains(id));
                            assert(g.node(id) == g0.node(id));
                        }
                    }
                    SceneUpload::Stub
                } else {
                    SceneUpload::Unchanged
                }
            },
        }
    }
}

} // verus!

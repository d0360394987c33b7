//! The standard four-light rig: one white key light that starts disabled
//! and three colored fills that start enabled, each toggled by its own
//! key, and contributed to a frame's scene exactly when enabled at
//! composer time.

use vstd::prelude::*;

verus! {

use crate::render::DirectionalLight;
use crate::render::DirectionalLightDescriptor;
use crate::render::Render;
use crate::render::Scene;
use crate::vector::Vec3;

/// The rig's four descriptors: a white, a cyan, a red, and a yellow light,
/// each of unit power, shining down the scene's depth from above.
pub open spec fn spec_rig_descriptors() -> Seq<DirectionalLightDescriptor> {
    seq![
        DirectionalLightDescriptor {
            direction: Vec3 { x: -19661i64, y: -30802i64, z: -52429i64 },
            power: 65536i64,
            color: Vec3 { x: 65536i64, y: 65536i64, z: 65536i64 },
        },
        DirectionalLightDescriptor {
            direction: Vec3 { x: -19661i64, y: -30802i64, z: -52429i64 },
            power: 65536i64,
            color: Vec3 { x: 0i64, y: 65536i64, z: 65536i64 },
        },
        DirectionalLightDescriptor {
            direction: Vec3 { x: -19661i64, y: -30802i64, z: 52429i64 },
            power: 65536i64,
            color: Vec3 { x: 65536i64, y: 0i64, z: 0i64 },
        },
        DirectionalLightDescriptor {
            direction: Vec3 { x: 19661i64, y: -30802i64, z: 52429i64 },
            power: 65536i64,
            color: Vec3 { x: 65536i64, y: 65536i64, z: 0i64 },
        },
    ]
}

/// The handles of the enabled lights from position `i` on, in order.
pub open spec fn spec_enabled_ids(
    lights: Seq<DirectionalLight>,
    enabled: Seq<bool>,
    i: int,
) -> Seq<u32>
    decreases lights.len() - i,
{
    if i < 0 || i >= lights.len() || i >= enabled.len() {
        Seq::<u32>::empty()
    } else {
        (if enabled[i] {
            seq![lights[i].id]
        } else {
            Seq::<u32>::empty()
        }) + spec_enabled_ids(lights, enabled, i + 1)
    }
}

/// The four-light rig: the created lights' handles and their enabled
/// flags, owned by the caller across frames.
pub struct LightRig {
    lights: Vec<DirectionalLight>,
    enabled: Vec<bool>,
}

impl LightRig {
    /// The four handles, in rig order.
    pub closed spec fn spec_handles(self) -> Seq<DirectionalLight> {
        self.lights@
    }

    /// Which of the four lights are enabled.
    pub closed spec fn spec_enabled(self) -> Seq<bool> {
        self.enabled@
    }

    /// The rig always holds exactly four lights and four flags.
    pub closed spec fn wf(self) -> bool {
        self.lights@.len() == 4 && self.enabled@.len() == 4
    }

    /// Create the rig's four lights on the renderer: the key light starts
    /// disabled, the three fills enabled.
    pub fn new(render: &mut Render) -> (rig: LightRig)
        requires
            old(render).wf(),
            old(render).spec_lights().len() + 4 <= 0xffff_ffff,
        ensures
            rig.wf(),
            final(render).wf(),
            final(render).spec_lights() == old(render).spec_lights() + spec_rig_descriptors(),
            rig.spec_enabled() == seq![false, true, true, true],
            forall|k: int|
                0 <= k < 4 ==> (#[trigger] rig.spec_handles()[k].id) as int == old(
                    render,
                ).spec_lights().len() + k,
            final(render).geoms_view() == old(render).geoms_view(),
            final(render).buffers_view() == old(render).buffers_view(),
            final(render).spec_cells() == old(render).spec_cells(),
            final(render).spec_events() == old(render).spec_events(),
            final(render).spec_surface() == old(render).spec_surface(),
            final(render).spec_capacity() == old(render).spec_capacity(),
            final(render).spec_camera() == old(render).spec_camera(),
    {
        let d0 = DirectionalLightDescriptor {
            direction: Vec3 { x: -19661, y: -30802, z: -52429 },
            power: 65536,
            color: Vec3 { x: 65536, y: 65536, z: 65536 },
        };
        let d1 = DirectionalLightDescriptor {
            direction: Vec3 { x: -19661, y: -30802, z: -52429 },
            power: 65536,
            color: Vec3 { x: 0, y: 65536, z: 65536 },
        };
        let d2 = DirectionalLightDescriptor {
            direction: Vec3 { x: -19661, y: -30802, z: 52429 },
            power: 65536,
            color: Vec3 { x: 65536, y: 0, z: 0 },
        };
        let d3 = DirectionalLightDescriptor {
            direction: Vec3 { x: 19661, y: -30802, z: 52429 },
            power: 65536,
            color: Vec3 { x: 65536, y: 65536, z: 0 },
        };
        let l0 = render.create_directional_light(&d0);
        let l1 = render.create_directional_light(&d1);
        let l2 = render.create_directional_light(&d2);
        let l3 = render.create_directional_light(&d3);
        let mut lights: Vec<DirectionalLight> = Vec::new();
        lights.push(l0);
        lights.push(l1);
        lights.push(l2);
        lights.push(l3);
        let mut enabled: Vec<bool> = Vec::new();
        enabled.push(false);
        enabled.push(true);
        enabled.push(true);
        enabled.push(true);
        proof {
            assert(render.spec_lights() =~= old(render).spec_lights()
                + spec_rig_descriptors());
            assert(enabled@ =~= seq![false, true, true, true]);
        }
        LightRig { lights, enabled }
    }

    /// Flip one light's enabled flag; positions beyond the rig do nothing.
    pub fn toggle(&mut self, k: usize)
        requires
            old(self).wf(),
        ensures
            final(self).wf(),
            final(self).spec_handles() == old(self).spec_handles(),
            (k as int) < 4 ==> final(self).spec_enabled() == old(self).spec_enabled().update(
                k as int,
                !old(self).spec_enabled()[k as int],
            ),
            (k as int) >= 4 ==> final(self).spec_enabled() == old(self).spec_enabled(),
    {
        if k < 4 {
            let cur = self.enabled[k];
            self.enabled.set(k, !cur);
        }
    }

    /// Add exactly the enabled lights to this frame's scene, in rig order:
    /// a light is included if and only if its flag is enabled at composer
    /// time.
    pub fn contribute(&self, scene: &mut Scene)
        requires
            self.wf(),
            old(scene).spec_lights().len() + 4 <= usize::MAX,
        ensures
            final(scene).spec_lights() == old(scene).spec_lights() + spec_enabled_ids(
                self.spec_handles(),
                self.spec_enabled(),
                0,
            ),
            final(scene).spec_prims() == old(scene).spec_prims(),
    {
        let mut k: usize = 0;
        while k < 4
            invariant
                k <= 4,
                self.wf(),
                old(scene).spec_lights().len() + 4 <= usize::MAX,
                scene.spec_lights().len() <= old(scene).spec_lights().len() + k,
                old(scene).spec_lights() + spec_enabled_ids(
                    self.spec_handles(),
                    self.spec_enabled(),
                    0,
                ) == scene.spec_lights() + spec_enabled_ids(
                    self.spec_handles(),
                    self.spec_enabled(),
                    k as int,
                ),
                scene.spec_prims() == old(scene).spec_prims(),
            decreases 4 - k,
        {
            if self.enabled[k] {
                let ghost prev = scene.spec_lights();
                scene.add_directional_light(&self.lights[k]);
                proof {
                    assert(prev + (seq![self.spec_handles()[k as int].id] + spec_enabled_ids(
                        self.spec_handles(),
                        self.spec_enabled(),
                        k as int + 1,
                    )) =~= scene.spec_lights() + spec_enabled_ids(
                        self.spec_handles(),
                        self.spec_enabled(),
                        k as int + 1,
                    ));
                }
            }
            k += 1;
        }
        proof {
            assert(spec_enabled_ids(self.spec_handles(), self.spec_enabled(), 4)
                =~= Seq::<u32>::empty());
            assert(old(scene).spec_lights() + spec_enabled_ids(
                self.spec_handles(),
                self.spec_enabled(),
                0,
            ) =~= scene.spec_lights());
        }
    }
}

} // verus!

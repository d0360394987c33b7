use wat3rs::camera::Ext2;
use wat3rs::matrix::Mat4x4;
use wat3rs::obj::parse_fixed;
use wat3rs::obj::parse_obj;
use wat3rs::obj::parse_u32;
use wat3rs::render::AcquireAction;
use wat3rs::render::AcquireResult;
use wat3rs::render::DirectionalLightDescriptor;
use wat3rs::render::FrameResult;
use wat3rs::render::GeometryAccessor;
use wat3rs::render::GeometryDescriptor;
use wat3rs::render::GpuCommand;
use wat3rs::render::Phase;
use wat3rs::render::PrimitiveDescriptor;
use wat3rs::render::RemedyKind;
use wat3rs::render::Render;
use wat3rs::lights::LightRig;
use wat3rs::render::DirectionalLight;
use wat3rs::render::RenderCreateError;
use wat3rs::scalar::FIX_ONE;
use wat3rs::vector::Vec3;

fn white() -> Vec3 {
    Vec3 { x: FIX_ONE, y: FIX_ONE, z: FIX_ONE }
}

fn red() -> Vec3 {
    Vec3 { x: FIX_ONE, y: 0, z: 0 }
}

fn tri_descriptor(color: Vec3) -> PrimitiveDescriptor {
    PrimitiveDescriptor {
        vertex_accessor: GeometryAccessor { offset: 0, size: 96, count: 3 },
        index_accessor: None,
        color,
    }
}

fn window() -> Ext2 {
    Ext2 { w: 800, h: 600 }
}

#[test]
fn deferred_events_apply_in_submission_order() {
    let mut r = Render::new(window());
    let g = r.create_geometry(
        &GeometryDescriptor { geometry_buffer: vec![0u8; 96], primitives: vec![] },
    );
    let p1 = g.create_primitive(&mut r, &tri_descriptor(white()));
    p1.set_base_color(&mut r, red());
    let p2 = p1.clone_primitive(&mut r);
    assert_eq!(r.pending_events(), 3);
    assert_eq!(r.primitive_count(0), 0);
    let scene = r.create_scene();
    let res = r.render_scene(&scene, AcquireResult::Frame, AcquireResult::Frame, window());
    assert!(matches!(res, FrameResult::Presented { .. }));
    assert_eq!(r.pending_events(), 0);
    // The model after draining: create, then recolor, then clone the
    // recolored primitive, in exactly that order.
    assert_eq!(r.primitive_count(0), 2);
    assert_eq!(r.resolve(&p1), Some(0));
    assert_eq!(r.resolve(&p2), Some(1));
    let s1 = r.get_primitive(0, 0).unwrap();
    let s2 = r.get_primitive(0, 1).unwrap();
    assert_eq!(s1.color, red());
    assert_eq!(s2.color, red());
    assert_eq!(s1.id, 0);
    assert_eq!(s2.id, 1);
}

#[test]
fn clone_preserves_and_isolates() {
    let mut r = Render::new(window());
    let g = r.create_geometry(
        &GeometryDescriptor { geometry_buffer: vec![0u8; 96], primitives: vec![] },
    );
    let src = g.create_primitive(&mut r, &tri_descriptor(red()));
    let dup = src.clone_primitive(&mut r);
    let scene = r.create_scene();
    r.render_scene(&scene, AcquireResult::Frame, AcquireResult::Frame, window());
    // The clone kept the source's color and accessors.
    let s = r.get_primitive(0, 0).unwrap();
    let d = r.get_primitive(0, 1).unwrap();
    assert_eq!(d.color, s.color);
    assert_eq!(d.vertex_accessor, s.vertex_accessor);
    assert_eq!(d.index_accessor, s.index_accessor);
    // Mutating the clone never touches the source, and the reverse.
    dup.set_base_color(&mut r, white());
    r.render_scene(&scene, AcquireResult::Frame, AcquireResult::Frame, window());
    assert_eq!(r.get_primitive(0, 0).unwrap().color, red());
    assert_eq!(r.get_primitive(0, 1).unwrap().color, white());
    src.set_base_color(&mut r, Vec3 { x: 0, y: 0, z: FIX_ONE });
    r.render_scene(&scene, AcquireResult::Frame, AcquireResult::Frame, window());
    assert_eq!(r.get_primitive(0, 0).unwrap().color, Vec3 { x: 0, y: 0, z: FIX_ONE });
    assert_eq!(r.get_primitive(0, 1).unwrap().color, white());
}

#[test]
fn resize_is_idempotent() {
    let mut r = Render::new(window());
    let e = Ext2 { w: 1024, h: 768 };
    assert!(r.resize(e));
    assert!(!r.resize(e));
    assert!(!r.resize(e));
    assert_eq!(r.get_surface().width, 1024);
    assert_eq!(r.get_surface().height, 768);
}

#[test]
fn matrix_capacity_grows_and_never_shrinks() {
    let mut r = Render::new(window());
    let g = r.create_geometry(
        &GeometryDescriptor {
            geometry_buffer: vec![0u8; 96],
            primitives: vec![tri_descriptor(white()), tri_descriptor(white()), tri_descriptor(
                white(),
            )],
        },
    );
    assert_eq!(r.get_capacity(), 0);
    let mut scene = r.create_scene();
    scene.add_primitive(&g.create_primitive(&mut r, &tri_descriptor(white())));
    r.render_scene(&scene, AcquireResult::Frame, AcquireResult::Frame, window());
    assert_eq!(r.get_capacity(), 1);
    let mut scene2 = r.create_scene();
    let p1 = g.create_primitive(&mut r, &tri_descriptor(white()));
    let p2 = g.create_primitive(&mut r, &tri_descriptor(white()));
    let p3 = g.create_primitive(&mut r, &tri_descriptor(white()));
    scene2.add_primitive(&p1);
    scene2.add_primitive(&p2);
    scene2.add_primitive(&p3);
    r.render_scene(&scene2, AcquireResult::Frame, AcquireResult::Frame, window());
    assert_eq!(r.get_capacity(), 3);
    // A smaller frame leaves the capacity where it was.
    let scene3 = r.create_scene();
    r.render_scene(&scene3, AcquireResult::Frame, AcquireResult::Frame, window());
    assert_eq!(r.get_capacity(), 3);
}

#[test]
fn end_to_end_single_triangle_frame() {
    let mut r = Render::new(window());
    let g = r.create_geometry(
        &GeometryDescriptor { geometry_buffer: vec![0u8; 96], primitives: vec![] },
    );
    let p = g.create_primitive(&mut r, &tri_descriptor(white()));
    p.set_transform(&mut r, Mat4x4::identity());
    let light = r.create_directional_light(
        &DirectionalLightDescriptor {
            direction: Vec3 { x: 0, y: -FIX_ONE, z: 0 },
            power: FIX_ONE,
            color: white(),
        },
    );
    let mut scene = r.create_scene();
    scene.add_primitive(&p);
    scene.add_directional_light(&light);
    let res = r.render_scene(&scene, AcquireResult::Frame, AcquireResult::Frame, window());
    match res {
        FrameResult::Skipped { .. } => panic!("frame was dropped"),
        FrameResult::Presented { phases, commands } => {
            assert_eq!(
                phases,
                vec![
                    Phase::EventsDrained,
                    Phase::FrameAcquired,
                    Phase::BuffersSized,
                    Phase::MatricesComputed,
                    Phase::GeometryPassDone,
                    Phase::LightingPassDone,
                    Phase::Presented,
                ],
            );
            assert_eq!(commands.last(), Some(&GpuCommand::Present));
            assert!(commands.contains(&GpuCommand::Draw { geometry: 0, primitive: 0, count: 3 }));
            assert!(commands.contains(&GpuCommand::ComputeMatrices { slots: 1 }));
            assert!(commands.contains(&GpuCommand::BlendLight { light: 0 }));
            // The compute dispatch is recorded before the geometry pass,
            // the passes in order, and the present comes last.
            let at = |c: &GpuCommand| commands.iter().position(|x| x == c).unwrap();
            let compute = at(&GpuCommand::ComputeMatrices { slots: 1 });
            let geom = at(&GpuCommand::BeginGeometryPass);
            let light_pass = at(&GpuCommand::BeginLightingPass);
            let present = at(&GpuCommand::Present);
            assert!(compute < geom && geom < light_pass && light_pass < present);
        },
    }
    assert_eq!(r.get_primitive(0, 0).unwrap().transform.data, Mat4x4::identity().data);
}

#[test]
fn timeout_drops_the_frame_but_drains_first() {
    let mut r = Render::new(window());
    let g = r.create_geometry(
        &GeometryDescriptor { geometry_buffer: vec![0u8; 96], primitives: vec![] },
    );
    let _p = g.create_primitive(&mut r, &tri_descriptor(white()));
    let scene = r.create_scene();
    let res = r.render_scene(&scene, AcquireResult::Timeout, AcquireResult::Frame, window());
    // The frame is dropped silently, but the queue was drained before the
    // acquire attempt, and the drain's buffer writes still come back.
    match res {
        FrameResult::Presented { .. } => panic!("a timed-out frame must be dropped"),
        FrameResult::Skipped { commands } => {
            assert_eq!(commands.len(), 1);
            assert!(matches!(commands[0], GpuCommand::CreateUniform { .. }));
        },
    }
    assert_eq!(r.pending_events(), 0);
    assert_eq!(r.primitive_count(0), 1);
}

#[test]
fn surface_lost_recovers_with_one_retry() {
    let mut r = Render::new(window());
    let a1 = r.acquire_attempt(AcquireResult::Lost, window());
    assert_eq!(a1, AcquireAction::Remediate(RemedyKind::RecreateSurface));
    let a2 = r.acquire_attempt(AcquireResult::Frame, window());
    assert_eq!(a2, AcquireAction::Proceed);
    // The composed render call sees the recovery as a presented frame.
    let scene = r.create_scene();
    let res = r.render_scene(&scene, AcquireResult::Lost, AcquireResult::Frame, window());
    assert!(matches!(res, FrameResult::Presented { .. }));
    // A second loss right after the retry drops the frame instead.
    let res2 = r.render_scene(&scene, AcquireResult::Lost, AcquireResult::Lost, window());
    assert!(matches!(res2, FrameResult::Skipped { .. }));
}

#[test]
fn outdated_surface_resynchronizes_to_the_window() {
    let mut r = Render::new(window());
    let bigger = Ext2 { w: 1000, h: 700 };
    let a = r.acquire_attempt(AcquireResult::Outdated, bigger);
    assert_eq!(a, AcquireAction::Remediate(RemedyKind::Reconfigure(bigger)));
    assert_eq!(r.get_surface().width, 1000);
    assert_eq!(r.get_surface().height, 700);
    // A zero-area window drops the frame without reconfiguring.
    let mut r2 = Render::new(window());
    let a2 = r2.acquire_attempt(AcquireResult::Outdated, Ext2 { w: 0, h: 600 });
    assert_eq!(a2, AcquireAction::Skip);
    assert_eq!(r2.get_surface().width, 800);
}

#[test]
fn parse_numbers() {
    assert_eq!(parse_u32(b"123"), 123);
    assert_eq!(parse_u32(b""), 0);
    assert_eq!(parse_u32(b"12a"), 0);
    assert_eq!(parse_u32(b"4294967295"), 4294967295);
    assert_eq!(parse_u32(b"4294967296"), 0);
    assert_eq!(parse_fixed(b"2"), Some(2 * FIX_ONE));
    assert_eq!(parse_fixed(b"1.5"), Some(98304));
    assert_eq!(parse_fixed(b"-0.25"), Some(-16384));
    assert_eq!(parse_fixed(b"1."), Some(FIX_ONE));
    assert_eq!(parse_fixed(b".5"), Some(32768));
    assert_eq!(parse_fixed(b""), None);
    assert_eq!(parse_fixed(b"abc"), None);
    assert_eq!(parse_fixed(b"1.2.3"), None);
}

#[test]
fn parse_obj_triangle() {
    let src = b"v 0 0 0\nv 1 0 0\nv 0 1 0\nf 1 2 3";
    let (vertices, indices) = parse_obj(src).unwrap();
    assert_eq!(vertices.len(), 3);
    assert_eq!(indices, vec![0, 1, 2]);
    assert_eq!(vertices[0].position, Vec3 { x: 0, y: 0, z: 0 });
    assert_eq!(vertices[1].position, Vec3 { x: FIX_ONE, y: 0, z: 0 });
    assert_eq!(vertices[2].position, Vec3 { x: 0, y: FIX_ONE, z: 0 });
}

#[test]
fn parse_obj_quad_fans_and_deduplicates() {
    // A quad becomes two triangles sharing the fan corner; a second face
    // reusing the same references adds no new vertices.
    let src = b"v 0 0 0\nv 1 0 0\nv 1 1 0\nv 0 1 0\nf 1 2 3 4\nf 1 2 3\n";
    let (vertices, indices) = parse_obj(src).unwrap();
    assert_eq!(vertices.len(), 4);
    assert_eq!(indices, vec![0, 1, 2, 0, 2, 3, 0, 1, 2]);
}

#[test]
fn parse_obj_rejects_empty_and_malformed() {
    assert!(parse_obj(b"").is_none());
    assert!(parse_obj(b"v 0 0 0\n").is_none());
    assert!(parse_obj(b"v 0 0 0\nf 1\n").is_none());
    // A coordinate line whose payload does not parse aborts the read.
    assert!(parse_obj(b"v\nf 1 2 3").is_none());
    assert!(parse_obj(b"v 0 abc 0\nv 1 0 0\nv 0 1 0\nf 1 2 3").is_none());
    assert!(parse_obj(b"v 0 0 0\nvt 1\nf 1 2 3").is_none());
}

#[test]
fn parse_obj_drops_out_of_range_corners() {
    // The corner referencing a vertex that does not exist is dropped; the
    // remaining two corners make no triangle, so nothing is produced.
    assert!(parse_obj(b"v 0 0 0\nv 1 0 0\nv 0 1 0\nf 9 2 3").is_none());
    // With three resolvable corners left, the face still fans.
    let (vertices, indices) = parse_obj(b"v 0 0 0\nv 1 0 0\nv 0 1 0\nf 1 2 3 9").unwrap();
    assert_eq!(vertices.len(), 3);
    assert_eq!(indices, vec![0, 1, 2]);
}

#[test]
fn singular_transforms_are_rejected_with_a_report() {
    let mut r = Render::new(window());
    let g = r.create_geometry(
        &GeometryDescriptor { geometry_buffer: vec![0u8; 96], primitives: vec![] },
    );
    let p = g.create_primitive(&mut r, &tri_descriptor(white()));
    assert_eq!(r.pending_events(), 1);
    // A singular matrix has no inverse to write: nothing is queued.
    let singular = Mat4x4 { data: [[0; 4]; 4] };
    assert!(!p.try_set_transform(&mut r, singular));
    assert_eq!(r.pending_events(), 1);
    // An invertible one queues exactly as set_transform does.
    assert!(p.try_set_transform(&mut r, Mat4x4::identity()));
    assert_eq!(r.pending_events(), 2);
}

#[test]
fn construction_errors_describe_themselves() {
    assert_eq!(
        RenderCreateError::NoAdapter.describe(),
        "no graphics adapter accepts the surface",
    );
    assert_eq!(RenderCreateError::NoSurface.describe(), "no surface could be created for the window");
    assert_eq!(RenderCreateError::NoDevice.describe(), "the adapter handed out no device");
    assert_eq!(RenderCreateError::NoSurfaceConfig.describe(), "the surface accepts no configuration");
    assert_eq!(RenderCreateError::Unknown.describe(), "renderer setup failed");
}

#[test]
fn light_rig_toggles_and_contributes() {
    let mut r = Render::new(window());
    let mut rig = LightRig::new(&mut r);
    // Four lights exist on the renderer; the key light starts disabled.
    assert_eq!(r.get_light(&DirectionalLight { id: 3 }).unwrap().color,
        Vec3 { x: FIX_ONE, y: FIX_ONE, z: 0 });
    let mut scene = r.create_scene();
    rig.contribute(&mut scene);
    let res = r.render_scene(&scene, AcquireResult::Frame, AcquireResult::Frame, window());
    match res {
        FrameResult::Skipped { .. } => panic!("frame was dropped"),
        FrameResult::Presented { commands, .. } => {
            // Exactly the three enabled fills are blended, in rig order.
            assert!(!commands.contains(&GpuCommand::BlendLight { light: 0 }));
            assert!(commands.contains(&GpuCommand::BlendLight { light: 1 }));
            assert!(commands.contains(&GpuCommand::BlendLight { light: 2 }));
            assert!(commands.contains(&GpuCommand::BlendLight { light: 3 }));
        },
    }
    // Toggling the key light on and a fill off changes the contribution.
    rig.toggle(0);
    rig.toggle(2);
    let mut scene2 = r.create_scene();
    rig.contribute(&mut scene2);
    let res2 = r.render_scene(&scene2, AcquireResult::Frame, AcquireResult::Frame, window());
    match res2 {
        FrameResult::Skipped { .. } => panic!("frame was dropped"),
        FrameResult::Presented { commands, .. } => {
            assert!(commands.contains(&GpuCommand::BlendLight { light: 0 }));
            assert!(commands.contains(&GpuCommand::BlendLight { light: 1 }));
            assert!(!commands.contains(&GpuCommand::BlendLight { light: 2 }));
            assert!(commands.contains(&GpuCommand::BlendLight { light: 3 }));
        },
    }
}

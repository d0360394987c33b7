//! The render-scene composition and GPU resource lifecycle core.
//!
//! The renderer owns the scene state — geometries with their primitives, the
//! deferred event queue, id cells for not-yet-created primitives, lights, the
//! camera, the surface configuration, and the matrix-slot capacity — all as
//! plain verified data. Handles returned to callers queue mutations rather
//! than touching state; each frame the queue is drained in submission order,
//! and the frame's GPU work is produced as an ordered command list that an
//! unverified shell executes against the real device.

use vstd::prelude::*;

verus! {

use crate::camera::Camera;
use crate::camera::Ext2;
use crate::event::EventReciever;
use crate::event::EventSender;
use crate::matrix::m_in;
use crate::matrix::spec_det;
use crate::matrix::spec_identity;
use crate::matrix::invertible_ok;
use crate::matrix::spec_inv_entry;
use crate::matrix::spec_inverse;
use crate::matrix::Mat4x4;
use crate::matrix::DET_LIMIT;
use crate::vector::Vec2;
use crate::vector::Vec3;

/// One vertex of the wire format handed to the GPU vertex stage.
#[derive(Clone, Copy, Debug, PartialEq, Eq, Structural)]
pub struct Vertex {
    pub position: Vec3,
    pub tex_coord: Vec2,
    pub normal: Vec3,
}

/// Why constructing a renderer against a real device can fail; the shell
/// maps its device errors onto this, and startup reports the message.
#[derive(Clone, Copy, Debug, PartialEq, Eq, Structural)]
pub enum RenderCreateError {
    NoSurface,
    NoAdapter,
    NoDevice,
    NoSurfaceConfig,
    NoPipeline,
    Unknown,
}

impl RenderCreateError {
    /// A human-readable cause, for the startup message.
    pub fn describe(&self) -> (m: &'static str)
        ensures
            m@ == (match *self {
                RenderCreateError::NoSurface => "no surface could be created for the window"@,
                RenderCreateError::NoAdapter => "no graphics adapter accepts the surface"@,
                RenderCreateError::NoDevice => "the adapter handed out no device"@,
                RenderCreateError::NoSurfaceConfig => "the surface accepts no configuration"@,
                RenderCreateError::NoPipeline => "the render pipeline could not be built"@,
                RenderCreateError::Unknown => "renderer setup failed"@,
            }),
    {
        match self {
            RenderCreateError::NoSurface => "no surface could be created for the window",
            RenderCreateError::NoAdapter => "no graphics adapter accepts the surface",
            RenderCreateError::NoDevice => "the adapter handed out no device",
            RenderCreateError::NoSurfaceConfig => "the surface accepts no configuration",
            RenderCreateError::NoPipeline => "the render pipeline could not be built",
            RenderCreateError::Unknown => "renderer setup failed",
        }
    }
}

/// A subrange of a geometry's backing buffer: a byte offset, a byte size,
/// and how many elements it holds.
#[derive(Clone, Copy, Debug, PartialEq, Eq, Structural)]
pub struct GeometryAccessor {
    pub offset: usize,
    pub size: usize,
    pub count: u32,
}

/// What a new primitive is made from: where its vertices (and optionally
/// indices) sit in the geometry buffer, and its base color.
#[derive(Clone, Copy, Debug, PartialEq, Eq)]
pub struct PrimitiveDescriptor {
    pub vertex_accessor: GeometryAccessor,
    pub index_accessor: Option<GeometryAccessor>,
    pub color: Vec3,
}

/// What a new geometry is made from: one interleaved vertex-and-index byte
/// buffer, and the primitives created with it.
pub struct GeometryDescriptor {
    pub geometry_buffer: Vec<u8>,
    pub primitives: Vec<PrimitiveDescriptor>,
}

/// A directional light source.
#[derive(Clone, Copy, Debug, PartialEq, Eq)]
pub struct DirectionalLightDescriptor {
    pub direction: Vec3,
    pub power: i64,
    pub color: Vec3,
}

/// A handle to a light owned by the renderer.
#[derive(Clone, Copy, Debug, PartialEq, Eq, Structural)]
pub struct DirectionalLight {
    pub id: u32,
}

/// The state of one live primitive: the mirror of its GPU uniform buffer.
#[derive(Clone, Copy, Debug, PartialEq, Eq)]
pub struct PrimitiveState {
    pub vertex_accessor: GeometryAccessor,
    pub index_accessor: Option<GeometryAccessor>,
    pub transform: Mat4x4,
    pub color: Vec3,
    pub id: u32,
}

/// One geometry: its immutable backing buffer and its primitive list.
pub struct GeometryState {
    pub buffer: Vec<u8>,
    pub primitives: Vec<PrimitiveState>,
}

/// A shared id cell: which geometry it belongs to, and the primitive id once
/// the creating event has been applied.
#[derive(Clone, Copy, Debug, PartialEq, Eq)]
pub struct IdCell {
    pub geometry: u32,
    pub resolved: Option<u32>,
}

/// A requested mutation, queued by a handle and applied at the next drain.
#[derive(Clone, Copy, Debug)]
pub enum GeometryEventType {
    SetTransform { transform: Mat4x4, primitive: usize },
    SetBaseColor { base_color: Vec3, primitive: usize },
    CreatePrimitive { id_dst: usize, descriptor: PrimitiveDescriptor },
    ClonePrimitive { src_id: usize, dst_id: usize },
}

/// An event together with the geometry it targets.
#[derive(Clone, Copy, Debug)]
pub struct GeometryEvent {
    pub id: u32,
    pub ty: GeometryEventType,
}

/// One unit of GPU work for the unverified shell to execute, in order.
#[derive(Clone, Copy, Debug, PartialEq, Eq)]
pub enum GpuCommand {
    CreateUniform { geometry: u32, primitive: u32, color: Vec3 },
    WriteTransform { geometry: u32, primitive: u32, transform: Mat4x4, inverse: Mat4x4 },
    WriteColor { geometry: u32, primitive: u32, color: Vec3 },
    CopyUniform { geometry: u32, src: u32, dst: u32 },
    WritePrimitiveId { geometry: u32, primitive: u32, id: u32 },
    GrowMatrixBuffers { capacity: u64 },
    WriteSlotOffset { geometry: u32, primitive: u32, offset: u64 },
    WriteCamera { view_projection: Mat4x4 },
    ComputeMatrices { slots: u64 },
    BeginGeometryPass,
    DrawIndexed { geometry: u32, primitive: u32, count: u32 },
    Draw { geometry: u32, primitive: u32, count: u32 },
    BeginLightingPass,
    BlendLight { light: u32 },
    Present,
}

/// What one attempt to get the current surface texture came back with.
#[derive(Clone, Copy, Debug, PartialEq, Eq, Structural)]
pub enum AcquireResult {
    Frame,
    Lost,
    Outdated,
    Timeout,
    OutOfMemory,
}

/// What the shell must do to the surface before retrying an acquire.
#[derive(Clone, Copy, Debug, PartialEq, Eq, Structural)]
pub enum RemedyKind {
    RecreateSurface,
    Reconfigure(Ext2),
}

/// The renderer's decision after one acquire attempt.
#[derive(Clone, Copy, Debug, PartialEq, Eq, Structural)]
pub enum AcquireAction {
    Proceed,
    Remediate(RemedyKind),
    Skip,
}

/// The stations of one frame, in the order they are passed.
#[derive(Clone, Copy, Debug, PartialEq, Eq, Structural)]
pub enum Phase {
    FrameAcquired,
    EventsDrained,
    BuffersSized,
    MatricesComputed,
    GeometryPassDone,
    LightingPassDone,
    Presented,
}

/// What one call to `render_scene` came to: a dropped frame — whose
/// drain-time buffer writes must still be executed — or a presented one
/// with its passed phases and the commands to execute.
pub enum FrameResult {
    Skipped { commands: Vec<GpuCommand> },
    Presented { phases: Vec<Phase>, commands: Vec<GpuCommand> },
}

/// The stored surface configuration, and whether the current acquire
/// sequence already used its one retry.
#[derive(Clone, Copy, Debug, PartialEq, Eq, Structural)]
pub struct SurfaceConfig {
    pub width: u32,
    pub height: u32,
    pub retried: bool,
}

/// A handle to a geometry; creation requests for its primitives go through
/// the deferred queue.
#[derive(Clone, Copy, Debug, PartialEq, Eq, Structural)]
pub struct Geometry {
    pub geometry_id: u32,
}

/// A handle to a primitive: its geometry, and the index of the id cell that
/// the drain fills in once the primitive exists.
#[derive(Clone, Copy, Debug, PartialEq, Eq, Structural)]
pub struct Primitive {
    pub geometry_id: u32,
    pub primitive_id: usize,
}

/// One entry of a frame's drawable set.
#[derive(Clone, Copy, Debug, PartialEq, Eq, Structural)]
pub struct ScenePrim {
    pub geometry: u32,
    pub cell: usize,
}

/// An ephemeral, per-frame collection of references to live primitives and
/// lights; built fresh every frame, owning nothing.
pub struct Scene {
    primitives: Vec<ScenePrim>,
    lights: Vec<u32>,
}

/// The id a cell resolved to, as an integer; meaningless while unresolved.
pub open spec fn cell_pid(c: IdCell) -> int {
    match c.resolved {
        Some(p) => p as int,
        None => -1,
    }
}

/// The primitive a descriptor creates: the accessors and color copied, the
/// transform starting at the identity, and the list position as its id.
pub open spec fn prim_from_descriptor(d: PrimitiveDescriptor, pid: u32) -> PrimitiveState {
    PrimitiveState {
        vertex_accessor: d.vertex_accessor,
        index_accessor: d.index_accessor,
        transform: spec_identity(),
        color: d.color,
        id: pid,
    }
}

/// A transform the drain can invert: entries small enough for the inverse
/// formulas, and a representable inverse. The drain writes each transform
/// together with its inverse into the uniform buffer; in the fixed-point
/// scalar a singular or out-of-range inverse has no representable value to
/// write, so such transforms are kept out here and rejected, with a report,
/// by `try_set_transform`.
pub open spec fn transform_ok(t: Mat4x4) -> bool {
    &&& m_in(t, DET_LIMIT as int)
    &&& invertible_ok(t)
}

/// Whether an event can be applied to the given state: its geometry exists,
/// the cells it reads are resolved to live primitives, the cell it fills is
/// still unresolved and belongs to the same geometry, and a new transform
/// is invertible.
pub open spec fn ev_ok(geoms: Seq<Seq<PrimitiveState>>, cells: Seq<IdCell>, e: GeometryEvent) -> bool {
    &&& (e.id as int) < geoms.len()
    &&& match e.ty {
        GeometryEventType::SetTransform { transform, primitive } => {
            &&& (primitive as int) < cells.len()
            &&& cells[primitive as int].geometry == e.id
            &&& cells[primitive as int].resolved is Some
            &&& cell_pid(cells[primitive as int]) < geoms[e.id as int].len()
            &&& transform_ok(transform)
        },
        GeometryEventType::SetBaseColor { base_color, primitive } => {
            &&& (primitive as int) < cells.len()
            &&& cells[primitive as int].geometry == e.id
            &&& cells[primitive as int].resolved is Some
            &&& cell_pid(cells[primitive as int]) < geoms[e.id as int].len()
        },
        GeometryEventType::CreatePrimitive { id_dst, descriptor } => {
            &&& (id_dst as int) < cells.len()
            &&& cells[id_dst as int].geometry == e.id
            &&& cells[id_dst as int].resolved is None
        },
        GeometryEventType::ClonePrimitive { src_id, dst_id } => {
            &&& (src_id as int) < cells.len()
            &&& cells[src_id as int].geometry == e.id
            &&& cells[src_id as int].resolved is Some
            &&& cell_pid(cells[src_id as int]) < geoms[e.id as int].len()
            &&& (dst_id as int) < cells.len()
            &&& cells[dst_id as int].geometry == e.id
            &&& cells[dst_id as int].resolved is None
        },
    }
}

/// The state after applying one event: the in-memory model the drain is
/// held to, one event at a time, in submission order.
pub open spec fn apply_event(
    geoms: Seq<Seq<PrimitiveState>>,
    cells: Seq<IdCell>,
    e: GeometryEvent,
) -> (Seq<Seq<PrimitiveState>>, Seq<IdCell>) {
    let g = e.id as int;
    match e.ty {
        GeometryEventType::SetTransform { transform, primitive } => {
            let pid = cell_pid(cells[primitive as int]);
            let p = geoms[g][pid];
            let q = PrimitiveState {
                vertex_accessor: p.vertex_accessor,
                index_accessor: p.index_accessor,
                transform,
                color: p.color,
                id: p.id,
            };
            (geoms.update(g, geoms[g].update(pid, q)), cells)
        },
        GeometryEventType::SetBaseColor { base_color, primitive } => {
            let pid = cell_pid(cells[primitive as int]);
            let p = geoms[g][pid];
            let q = PrimitiveState {
                vertex_accessor: p.vertex_accessor,
                index_accessor: p.index_accessor,
                transform: p.transform,
                color: base_color,
                id: p.id,
            };
            (geoms.update(g, geoms[g].update(pid, q)), cells)
        },
        GeometryEventType::CreatePrimitive { id_dst, descriptor } => {
            let pid = geoms[g].len() as u32;
            (
                geoms.update(g, geoms[g].push(prim_from_descriptor(descriptor, pid))),
                cells.update(id_dst as int, IdCell { geometry: e.id, resolved: Some(pid) }),
            )
        },
        GeometryEventType::ClonePrimitive { src_id, dst_id } => {
            let sp = geoms[g][cell_pid(cells[src_id as int])];
            let pid = geoms[g].len() as u32;
            let np = PrimitiveState {
                vertex_accessor: sp.vertex_accessor,
                index_accessor: sp.index_accessor,
                transform: sp.transform,
                color: sp.color,
                id: pid,
            };
            (
                geoms.update(g, geoms[g].push(np)),
                cells.update(dst_id as int, IdCell { geometry: e.id, resolved: Some(pid) }),
            )
        },
    }
}

/// The GPU writes one event costs, against the state it is applied to.
pub open spec fn event_commands(
    geoms: Seq<Seq<PrimitiveState>>,
    cells: Seq<IdCell>,
    e: GeometryEvent,
) -> Seq<GpuCommand> {
    let g = e.id as int;
    match e.ty {
        GeometryEventType::SetTransform { transform, primitive } => seq![
            GpuCommand::WriteTransform {
                geometry: e.id,
                primitive: cell_pid(cells[primitive as int]) as u32,
                transform,
                inverse: spec_inverse(transform),
            },
        ],
        GeometryEventType::SetBaseColor { base_color, primitive } => seq![
            GpuCommand::WriteColor {
                geometry: e.id,
                primitive: cell_pid(cells[primitive as int]) as u32,
                color: base_color,
            },
        ],
        GeometryEventType::CreatePrimitive { id_dst, descriptor } => seq![
            GpuCommand::CreateUniform {
                geometry: e.id,
                primitive: geoms[g].len() as u32,
                color: descriptor.color,
            },
        ],
        GeometryEventType::ClonePrimitive { src_id, dst_id } => {
            let pid = geoms[g].len() as u32;
            seq![
                GpuCommand::CopyUniform {
                    geometry: e.id,
                    src: cell_pid(cells[src_id as int]) as u32,
                    dst: pid,
                },
                GpuCommand::WritePrimitiveId { geometry: e.id, primitive: pid, id: pid },
            ]
        },
    }
}

/// The state after applying a whole queue in order.
pub open spec fn apply_events(
    geoms: Seq<Seq<PrimitiveState>>,
    cells: Seq<IdCell>,
    evs: Seq<GeometryEvent>,
) -> (Seq<Seq<PrimitiveState>>, Seq<IdCell>)
    decreases evs.len(),
{
    if evs.len() == 0 {
        (geoms, cells)
    } else {
        let s = apply_event(geoms, cells, evs[0]);
        apply_events(s.0, s.1, evs.drop_first())
    }
}

/// Every event of the queue is applicable in the state the earlier ones
/// leave behind.
pub open spec fn events_wf(
    geoms: Seq<Seq<PrimitiveState>>,
    cells: Seq<IdCell>,
    evs: Seq<GeometryEvent>,
) -> bool
    decreases evs.len(),
{
    if evs.len() == 0 {
        true
    } else {
        ev_ok(geoms, cells, evs[0]) && {
            let s = apply_event(geoms, cells, evs[0]);
            events_wf(s.0, s.1, evs.drop_first())
        }
    }
}

/// The GPU writes a whole queue costs, in order.
pub open spec fn events_commands(
    geoms: Seq<Seq<PrimitiveState>>,
    cells: Seq<IdCell>,
    evs: Seq<GeometryEvent>,
) -> Seq<GpuCommand>
    decreases evs.len(),
{
    if evs.len() == 0 {
        Seq::<GpuCommand>::empty()
    } else {
        let s = apply_event(geoms, cells, evs[0]);
        event_commands(geoms, cells, evs[0]) + events_commands(s.0, s.1, evs.drop_first())
    }
}

/// Every cell points at a geometry that exists, and a resolved cell points
/// at a primitive that exists in it.
pub open spec fn cells_ok(geoms: Seq<Seq<PrimitiveState>>, cells: Seq<IdCell>) -> bool {
    forall|c: int|
        0 <= c < cells.len() ==> {
            &&& ((#[trigger] cells[c]).geometry as int) < geoms.len()
            &&& (cells[c].resolved is Some ==> cell_pid(cells[c]) < geoms[cells[c].geometry as int].len())
        }
}

/// Applying one admissible event keeps every cell valid, never removes a
/// primitive, never forgets a resolution, and grows one geometry by at most
/// one primitive.
proof fn lemma_apply_one(geoms: Seq<Seq<PrimitiveState>>, cells: Seq<IdCell>, e: GeometryEvent)
    requires
        ev_ok(geoms, cells, e),
        cells_ok(geoms, cells),
    ensures
        ({
            let s = apply_event(geoms, cells, e);
            &&& s.0.len() == geoms.len()
            &&& s.1.len() == cells.len()
            &&& cells_ok(s.0, s.1)
            &&& forall|gi: int|
                0 <= gi < geoms.len() ==> geoms[gi].len() <= (#[trigger] s.0[gi]).len()
                    <= geoms[gi].len() + 1
            &&& forall|ci: int|
                0 <= ci < cells.len() && cells[ci].resolved is Some ==> #[trigger] s.1[ci]
                    == cells[ci]
        }),
{
    let s = apply_event(geoms, cells, e);
    assert forall|c: int| 0 <= c < s.1.len() implies {
        &&& ((#[trigger] s.1[c]).geometry as int) < s.0.len()
        &&& (s.1[c].resolved is Some ==> cell_pid(s.1[c]) < s.0[s.1[c].geometry as int].len())
    } by {
        assert((cells[c].geometry as int) < geoms.len());
        assert(cells[c].resolved is Some ==> cell_pid(cells[c]) < geoms[cells[c].geometry as int].len());
    }
}

/// `lemma_apply_one`, folded over a whole admissible queue.
proof fn lemma_apply_many(geoms: Seq<Seq<PrimitiveState>>, cells: Seq<IdCell>, evs: Seq<GeometryEvent>)
    requires
        events_wf(geoms, cells, evs),
        cells_ok(geoms, cells),
    ensures
        ({
            let s = apply_events(geoms, cells, evs);
            &&& s.0.len() == geoms.len()
            &&& s.1.len() == cells.len()
            &&& cells_ok(s.0, s.1)
            &&& forall|gi: int|
                0 <= gi < geoms.len() ==> geoms[gi].len() <= (#[trigger] s.0[gi]).len()
                    <= geoms[gi].len() + evs.len()
            &&& forall|ci: int|
                0 <= ci < cells.len() && cells[ci].resolved is Some ==> #[trigger] s.1[ci]
                    == cells[ci]
        }),
    decreases evs.len(),
{
    if evs.len() > 0 {
        lemma_apply_one(geoms, cells, evs[0]);
        let s = apply_event(geoms, cells, evs[0]);
        lemma_apply_many(s.0, s.1, evs.drop_first());
    }
}

/// Order preservation: appending an event that is admissible in the
/// queue's end state keeps the queue admissible, and draining the longer
/// queue reaches exactly the state of draining the shorter one and then
/// applying that event — so events take effect in submission order, with
/// their GPU writes in the same order.
#[verifier::rlimit(100)]
pub proof fn lemma_push_event(
    geoms: Seq<Seq<PrimitiveState>>,
    cells: Seq<IdCell>,
    evs: Seq<GeometryEvent>,
    e: GeometryEvent,
)
    requires
        events_wf(geoms, cells, evs),
        ev_ok(apply_events(geoms, cells, evs).0, apply_events(geoms, cells, evs).1, e),
    ensures
        events_wf(geoms, cells, evs.push(e)),
        apply_events(geoms, cells, evs.push(e)) == apply_event(
            apply_events(geoms, cells, evs).0,
            apply_events(geoms, cells, evs).1,
            e,
        ),
        events_commands(geoms, cells, evs.push(e)) == events_commands(geoms, cells, evs)
            + event_commands(apply_events(geoms, cells, evs).0, apply_events(geoms, cells, evs).1, e),
    decreases evs.len(),
{
    if evs.len() == 0 {
        assert(evs.push(e)[0] == e);
        assert(evs.push(e).drop_first() =~= Seq::<GeometryEvent>::empty());
        assert(ev_ok(geoms, cells, e));
        let s = apply_event(geoms, cells, e);
        assert(events_wf(s.0, s.1, evs.push(e).drop_first()));
        assert(apply_events(s.0, s.1, evs.push(e).drop_first()) == s);
        assert(events_commands(s.0, s.1, evs.push(e).drop_first()) =~= Seq::<GpuCommand>::empty());
        assert(events_commands(geoms, cells, evs.push(e)) =~= event_commands(geoms, cells, e));
        assert(events_commands(geoms, cells, evs) =~= Seq::<GpuCommand>::empty());
    } else {
        assert(evs.push(e)[0] == evs[0]);
        assert(evs.push(e).drop_first() =~= evs.drop_first().push(e));
        let s = apply_event(geoms, cells, evs[0]);
        lemma_push_event(s.0, s.1, evs.drop_first(), e);
    }
}

/// Appending a fresh cell leaves every queued event applicable and only
/// appends the cell, untouched, to the end state.
proof fn lemma_cells_grow(
    geoms: Seq<Seq<PrimitiveState>>,
    cells: Seq<IdCell>,
    evs: Seq<GeometryEvent>,
    x: IdCell,
)
    requires
        events_wf(geoms, cells, evs),
    ensures
        events_wf(geoms, cells.push(x), evs),
        apply_events(geoms, cells.push(x), evs).0 == apply_events(geoms, cells, evs).0,
        apply_events(geoms, cells.push(x), evs).1 == apply_events(geoms, cells, evs).1.push(x),
        events_commands(geoms, cells.push(x), evs) == events_commands(geoms, cells, evs),
    decreases evs.len(),
{
    if evs.len() == 0 {
        assert(apply_events(geoms, cells.push(x), evs).1 =~= cells.push(x));
        assert(events_commands(geoms, cells.push(x), evs) =~= events_commands(geoms, cells, evs));
    } else {
        let e = evs[0];
        let c2 = cells.push(x);
        assert(ev_ok(geoms, c2, e)) by {
            match e.ty {
                GeometryEventType::SetTransform { transform, primitive } => {
                    assert(c2[primitive as int] == cells[primitive as int]);
                },
                GeometryEventType::SetBaseColor { base_color, primitive } => {
                    assert(c2[primitive as int] == cells[primitive as int]);
                },
                GeometryEventType::CreatePrimitive { id_dst, descriptor } => {
                    assert(c2[id_dst as int] == cells[id_dst as int]);
                },
                GeometryEventType::ClonePrimitive { src_id, dst_id } => {
                    assert(c2[src_id as int] == cells[src_id as int]);
                    assert(c2[dst_id as int] == cells[dst_id as int]);
                },
            }
        }
        let s = apply_event(geoms, cells, e);
        let s2 = apply_event(geoms, c2, e);
        assert(s2.0 == s.0 && s2.1 =~= s.1.push(x)) by {
            match e.ty {
                GeometryEventType::SetTransform { transform, primitive } => {
                    assert(c2[primitive as int] == cells[primitive as int]);
                },
                GeometryEventType::SetBaseColor { base_color, primitive } => {
                    assert(c2[primitive as int] == cells[primitive as int]);
                },
                GeometryEventType::CreatePrimitive { id_dst, descriptor } => {
                    assert(c2.update(
                        id_dst as int,
                        IdCell { geometry: e.id, resolved: Some(geoms[e.id as int].len() as u32) },
                    ) =~= cells.update(
                        id_dst as int,
                        IdCell { geometry: e.id, resolved: Some(geoms[e.id as int].len() as u32) },
                    ).push(x));
                },
                GeometryEventType::ClonePrimitive { src_id, dst_id } => {
                    assert(c2[src_id as int] == cells[src_id as int]);
                    assert(c2.update(
                        dst_id as int,
                        IdCell { geometry: e.id, resolved: Some(geoms[e.id as int].len() as u32) },
                    ) =~= cells.update(
                        dst_id as int,
                        IdCell { geometry: e.id, resolved: Some(geoms[e.id as int].len() as u32) },
                    ).push(x));
                },
            }
        }
        assert(event_commands(geoms, c2, e) =~= event_commands(geoms, cells, e)) by {
            match e.ty {
                GeometryEventType::SetTransform { transform, primitive } => {
                    assert(c2[primitive as int] == cells[primitive as int]);
                },
                GeometryEventType::SetBaseColor { base_color, primitive } => {
                    assert(c2[primitive as int] == cells[primitive as int]);
                },
                GeometryEventType::CreatePrimitive { id_dst, descriptor } => {},
                GeometryEventType::ClonePrimitive { src_id, dst_id } => {
                    assert(c2[src_id as int] == cells[src_id as int]);
                },
            }
        }
        lemma_cells_grow(s.0, s.1, evs.drop_first(), x);
    }
}

/// Appending a fresh geometry leaves every queued event applicable and only
/// appends the geometry, untouched, to the end state.
proof fn lemma_geoms_grow(
    geoms: Seq<Seq<PrimitiveState>>,
    cells: Seq<IdCell>,
    evs: Seq<GeometryEvent>,
    x: Seq<PrimitiveState>,
)
    requires
        events_wf(geoms, cells, evs),
    ensures
        events_wf(geoms.push(x), cells, evs),
        apply_events(geoms.push(x), cells, evs).0 == apply_events(geoms, cells, evs).0.push(x),
        apply_events(geoms.push(x), cells, evs).1 == apply_events(geoms, cells, evs).1,
        events_commands(geoms.push(x), cells, evs) == events_commands(geoms, cells, evs),
    decreases evs.len(),
{
    if evs.len() == 0 {
        assert(apply_events(geoms.push(x), cells, evs).0 =~= geoms.push(x));
        assert(events_commands(geoms.push(x), cells, evs) =~= events_commands(geoms, cells, evs));
    } else {
        let e = evs[0];
        let g2 = geoms.push(x);
        let g = e.id as int;
        assert(g2[g] == geoms[g]);
        let s = apply_event(geoms, cells, e);
        let s2 = apply_event(g2, cells, e);
        assert(s2.0 =~= s.0.push(x) && s2.1 == s.1) by {
            match e.ty {
                GeometryEventType::SetTransform { transform, primitive } => {
                    let pid = cell_pid(cells[primitive as int]);
                    assert(g2.update(g, g2[g].update(pid, s2.0[g][pid])) =~= geoms.update(
                        g,
                        geoms[g].update(pid, s.0[g][pid]),
                    ).push(x));
                },
                GeometryEventType::SetBaseColor { base_color, primitive } => {
                    let pid = cell_pid(cells[primitive as int]);
                    assert(g2.update(g, g2[g].update(pid, s2.0[g][pid])) =~= geoms.update(
                        g,
                        geoms[g].update(pid, s.0[g][pid]),
                    ).push(x));
                },
                GeometryEventType::CreatePrimitive { id_dst, descriptor } => {
                    let pid = geoms[g].len() as u32;
                    assert(g2.update(g, g2[g].push(prim_from_descriptor(descriptor, pid))) =~= geoms
                        .update(g, geoms[g].push(prim_from_descriptor(descriptor, pid))).push(x));
                },
                GeometryEventType::ClonePrimitive { src_id, dst_id } => {
                    assert(g2.update(g, s2.0[g]) =~= geoms.update(g, s.0[g]).push(x));
                },
            }
        }
        assert(event_commands(g2, cells, e) =~= event_commands(geoms, cells, e));
        lemma_geoms_grow(s.0, s.1, evs.drop_first(), x);
    }
}

/// Whether a whole acquire protocol run ends with a frame in hand.
pub open spec fn presented_ok(
    s: SurfaceConfig,
    first: AcquireResult,
    retry: AcquireResult,
    window: Ext2,
) -> bool {
    let a1 = spec_acquire(s, first, window);
    a1.1 == AcquireAction::Proceed || (a1.1 is Remediate && spec_acquire(a1.0, retry, window).1
        == AcquireAction::Proceed)
}

/// The surface configuration a whole acquire protocol run leaves behind.
pub open spec fn surface_after(
    s: SurfaceConfig,
    first: AcquireResult,
    retry: AcquireResult,
    window: Ext2,
) -> SurfaceConfig {
    let a1 = spec_acquire(s, first, window);
    if a1.1 is Remediate {
        spec_acquire(a1.0, retry, window).0
    } else {
        a1.0
    }
}

/// One step of the frame-acquisition protocol. A frame resets the retry
/// budget; timeouts and out-of-memory drop the frame; a lost surface is
/// recreated and retried once; an outdated surface is resynchronized to the
/// window's current size and retried once, unless the window has zero area,
/// in which case the frame is dropped without touching the configuration.
pub open spec fn spec_acquire(s: SurfaceConfig, result: AcquireResult, window: Ext2) -> (
    SurfaceConfig,
    AcquireAction,
) {
    match result {
        AcquireResult::Frame => (
            SurfaceConfig { width: s.width, height: s.height, retried: false },
            AcquireAction::Proceed,
        ),
        AcquireResult::Timeout => (s, AcquireAction::Skip),
        AcquireResult::OutOfMemory => (s, AcquireAction::Skip),
        AcquireResult::Lost => if s.retried {
            (
                SurfaceConfig { width: s.width, height: s.height, retried: false },
                AcquireAction::Skip,
            )
        } else {
            (
                SurfaceConfig { width: s.width, height: s.height, retried: true },
                AcquireAction::Remediate(RemedyKind::RecreateSurface),
            )
        },
        AcquireResult::Outdated => if s.retried {
            (
                SurfaceConfig { width: s.width, height: s.height, retried: false },
                AcquireAction::Skip,
            )
        } else if window.w == 0 || window.h == 0 {
            (s, AcquireAction::Skip)
        } else {
            (
                SurfaceConfig { width: window.w, height: window.h, retried: true },
                AcquireAction::Remediate(RemedyKind::Reconfigure(window)),
            )
        },
    }
}

/// What `resize` does to the stored configuration: nothing at all when the
/// extent is unchanged, otherwise one reconfiguration.
pub open spec fn spec_resize(s: SurfaceConfig, e: Ext2) -> (SurfaceConfig, bool) {
    if s.width == e.w && s.height == e.h {
        (s, false)
    } else {
        (SurfaceConfig { width: e.w, height: e.h, retried: s.retried }, true)
    }
}

/// Resizing twice in a row to the same extent reconfigures at most once:
/// the second call is a no-op.
pub proof fn lemma_resize_idempotent(s: SurfaceConfig, e: Ext2)
    ensures
        spec_resize(spec_resize(s, e).0, e).1 == false,
{
}

/// Surface-loss recovery: a lost surface is remediated by recreation, and a
/// successful retry then proceeds to a frame, the caller never observing
/// the intermediate failure.
pub proof fn lemma_lost_recovery(s: SurfaceConfig, window: Ext2)
    requires
        !s.retried,
    ensures
        ({
            let s1 = spec_acquire(s, AcquireResult::Lost, window);
            &&& s1.1 == AcquireAction::Remediate(RemedyKind::RecreateSurface)
            &&& spec_acquire(s1.0, AcquireResult::Frame, window).1 == AcquireAction::Proceed
        }),
{
}

/// Matrix-slot capacity is grow-only: across two frames whose required slot
/// counts do not shrink, the capacity never shrinks either.
pub proof fn lemma_capacity_monotone(cap: int, slots1: int, slots2: int)
    requires
        slots1 <= slots2,
    ensures
        ({
            let c1 = if slots1 > cap {
                slots1
            } else {
                cap
            };
            let c2 = if slots2 > c1 {
                slots2
            } else {
                c1
            };
            cap <= c1 <= c2
        }),
{
}

/// Cloning a primitive copies its color, accessors, and in-flight transform
/// without touching the source; afterwards, mutating either of the two
/// never changes the other.
pub proof fn lemma_clone_independent(
    geoms: Seq<Seq<PrimitiveState>>,
    cells: Seq<IdCell>,
    gid: u32,
    src: usize,
    dst: usize,
    t: Mat4x4,
)
    requires
        cells_ok(geoms, cells),
        geoms[gid as int].len() < 0x1_0000_0000,
        ev_ok(
            geoms,
            cells,
            GeometryEvent {
                id: gid,
                ty: GeometryEventType::ClonePrimitive { src_id: src, dst_id: dst },
            },
        ),
        transform_ok(t),
    ensures
        ({
            let clone_ev = GeometryEvent {
                id: gid,
                ty: GeometryEventType::ClonePrimitive { src_id: src, dst_id: dst },
            };
            let s1 = apply_event(geoms, cells, clone_ev);
            let spid = cell_pid(cells[src as int]);
            let srcp = geoms[gid as int][spid];
            let newpid = geoms[gid as int].len();
            &&& s1.0[gid as int][newpid as int].color == srcp.color
            &&& s1.0[gid as int][newpid as int].vertex_accessor == srcp.vertex_accessor
            &&& s1.0[gid as int][newpid as int].index_accessor == srcp.index_accessor
            &&& s1.0[gid as int][newpid as int].transform == srcp.transform
            &&& s1.0[gid as int][spid] == srcp
            &&& {
                let mut_clone = GeometryEvent {
                    id: gid,
                    ty: GeometryEventType::SetTransform { transform: t, primitive: dst },
                };
                let s2 = apply_event(s1.0, s1.1, mut_clone);
                s2.0[gid as int][spid] == srcp
            }
            &&& {
                let mut_src = GeometryEvent {
                    id: gid,
                    ty: GeometryEventType::SetTransform { transform: t, primitive: src },
                };
                let s3 = apply_event(s1.0, s1.1, mut_src);
                s3.0[gid as int][newpid as int] == s1.0[gid as int][newpid as int]
            }
        }),
{
    let clone_ev = GeometryEvent {
        id: gid,
        ty: GeometryEventType::ClonePrimitive { src_id: src, dst_id: dst },
    };
    let s1 = apply_event(geoms, cells, clone_ev);
    let spid = cell_pid(cells[src as int]);
    let newpid = geoms[gid as int].len();
    assert(s1.1[src as int] == cells[src as int]);
    assert(cell_pid(s1.1[dst as int]) == newpid);
    assert(spid != newpid) by {
        assert(spid < geoms[gid as int].len());
    }
}

/// Replace one primitive of one geometry.
fn set_prim(geoms: &mut Vec<GeometryState>, gi: usize, pi: usize, p: PrimitiveState)
    requires
        (gi as int) < old(geoms)@.len(),
        (pi as int) < old(geoms)@[gi as int].primitives@.len(),
    ensures
        final(geoms)@.len() == old(geoms)@.len(),
        forall|k: int|
            0 <= k < old(geoms)@.len() && k != gi ==> #[trigger] final(geoms)@[k]
                == old(geoms)@[k],
        final(geoms)@[gi as int].buffer == old(geoms)@[gi as int].buffer,
        final(geoms)@[gi as int].primitives@ == old(geoms)@[gi as int].primitives@.update(
            pi as int,
            p,
        ),
{
    let g: &mut GeometryState = &mut geoms[gi];
    g.primitives[pi] = p;
}

/// Append one primitive to one geometry.
fn push_prim(geoms: &mut Vec<GeometryState>, gi: usize, p: PrimitiveState)
    requires
        (gi as int) < old(geoms)@.len(),
        old(geoms)@[gi as int].primitives@.len() < usize::MAX,
    ensures
        final(geoms)@.len() == old(geoms)@.len(),
        forall|k: int|
            0 <= k < old(geoms)@.len() && k != gi ==> #[trigger] final(geoms)@[k]
                == old(geoms)@[k],
        final(geoms)@[gi as int].buffer == old(geoms)@[gi as int].buffer,
        final(geoms)@[gi as int].primitives@ == old(geoms)@[gi as int].primitives@.push(p),
{
    let g: &mut GeometryState = &mut geoms[gi];
    g.primitives.push(p);
}

/// A byte-for-byte copy.
fn copy_bytes(src: &Vec<u8>) -> (r: Vec<u8>)
    ensures
        r@ == src@,
{
    let mut r: Vec<u8> = Vec::new();
    let n = src.len();
    let mut i: usize = 0;
    while i < n
        invariant
            i <= n,
            n == src@.len(),
            r@ == src@.take(i as int),
        decreases n - i,
    {
        r.push(src[i]);
        proof {
            assert(r@ =~= src@.take(i as int + 1));
        }
        i += 1;
    }
    proof {
        assert(src@.take(n as int) =~= src@);
    }
    r
}

/// The primitives a geometry descriptor creates at once, each taking its
/// list position as its id.
pub open spec fn init_prims(ds: Seq<PrimitiveDescriptor>) -> Seq<PrimitiveState> {
    Seq::new(ds.len(), |i: int| prim_from_descriptor(ds[i], i as u32))
}

impl Scene {
    /// The drawable set, in insertion order.
    pub closed spec fn spec_prims(self) -> Seq<ScenePrim> {
        self.primitives@
    }

    /// The lights to blend, in insertion order.
    pub closed spec fn spec_lights(self) -> Seq<u32> {
        self.lights@
    }

    /// Add a primitive to this frame's drawable set; the caller keeps
    /// ownership of the handle.
    pub fn add_primitive(&mut self, p: &Primitive)
        requires
            old(self).spec_prims().len() < usize::MAX,
        ensures
            final(self).spec_prims() == old(self).spec_prims().push(
                ScenePrim { geometry: p.geometry_id, cell: p.primitive_id },
            ),
            final(self).spec_lights() == old(self).spec_lights(),
    {
        self.primitives.push(ScenePrim { geometry: p.geometry_id, cell: p.primitive_id });
    }

    /// Add a directional light to this frame; the caller keeps ownership.
    pub fn add_directional_light(&mut self, l: &DirectionalLight)
        requires
            old(self).spec_lights().len() < usize::MAX,
        ensures
            final(self).spec_lights() == old(self).spec_lights().push(l.id),
            final(self).spec_prims() == old(self).spec_prims(),
    {
        self.lights.push(l.id);
    }
}

/// The render system: the verified scene and resource state.
pub struct Render {
    camera: Camera,
    geometries: Vec<GeometryState>,
    cells: Vec<IdCell>,
    reciever: EventReciever<GeometryEvent>,
    sender: EventSender<GeometryEvent>,
    lights: Vec<DirectionalLightDescriptor>,
    surface: SurfaceConfig,
    matrix_capacity: usize,
}

impl Render {
    /// The primitive lists of all geometries.
    pub closed spec fn geoms_view(self) -> Seq<Seq<PrimitiveState>> {
        self.geometries@.map_values(|g: GeometryState| g.primitives@)
    }

    /// The backing byte buffers of all geometries.
    pub closed spec fn buffers_view(self) -> Seq<Seq<u8>> {
        self.geometries@.map_values(|g: GeometryState| g.buffer@)
    }

    /// The id-cell table.
    pub closed spec fn spec_cells(self) -> Seq<IdCell> {
        self.cells@
    }

    /// The pending deferred events, oldest first.
    pub closed spec fn spec_events(self) -> Seq<GeometryEvent> {
        self.reciever.events()
    }

    /// The lights created so far.
    pub closed spec fn spec_lights(self) -> Seq<DirectionalLightDescriptor> {
        self.lights@
    }

    /// The stored surface configuration.
    pub closed spec fn spec_surface(self) -> SurfaceConfig {
        self.surface
    }

    /// The current matrix-slot capacity.
    pub closed spec fn spec_capacity(self) -> int {
        self.matrix_capacity as int
    }

    /// The camera.
    pub closed spec fn spec_camera(self) -> Camera {
        self.camera
    }

    /// The scene state once every pending event has been applied.
    pub open spec fn end_geoms(self) -> Seq<Seq<PrimitiveState>> {
        apply_events(self.geoms_view(), self.spec_cells(), self.spec_events()).0
    }

    /// The id cells once every pending event has been applied.
    pub open spec fn end_cells(self) -> Seq<IdCell> {
        apply_events(self.geoms_view(), self.spec_cells(), self.spec_events()).1
    }

    /// The renderer's invariant: the queue is applicable in order, every
    /// cell is valid, and all the counts stay within the id types.
    pub closed spec fn wf(self) -> bool {
        &&& events_wf(self.geoms_view(), self.cells@, self.reciever.events())
        &&& cells_ok(self.geoms_view(), self.cells@)
        &&& self.geometries@.len() <= 0x0fff_ffff
        &&& self.reciever.events().len() <= 0x0fff_ffff
        &&& (forall|g: int|
            0 <= g < self.geoms_view().len() ==> (#[trigger] self.geoms_view()[g]).len()
                + self.reciever.events().len() <= 0x3fff_ffff)
        &&& self.lights@.len() <= 0xffff_ffff
        &&& self.matrix_capacity <= 0xffff_ffff
    }

    /// Whether one more deferred event fits within the invariant's counts.
    pub open spec fn has_room(self) -> bool {
        &&& self.spec_events().len() < 0x0fff_ffff
        &&& forall|g: int|
            0 <= g < self.geoms_view().len() ==> (#[trigger] self.geoms_view()[g]).len()
                + self.spec_events().len() + 1 <= 0x3fff_ffff
    }

    /// A renderer with no scene yet, configured to the given surface extent.
    pub fn new(extent: Ext2) -> (r: Render)
        ensures
            r.wf(),
            r.geoms_view().len() == 0,
            r.spec_cells().len() == 0,
            r.spec_events().len() == 0,
            r.spec_lights().len() == 0,
            r.spec_surface() == (SurfaceConfig { width: extent.w, height: extent.h, retried: false }),
            r.spec_capacity() == 0,
            r.spec_camera() == crate::camera::spec_default_camera(),
            r.spec_camera().wf(),
            r.spec_camera().cache_ok(),
    {
        let reciever: EventReciever<GeometryEvent> = EventReciever::new();
        let sender = reciever.create_sender();
        let r = Render {
            camera: Camera::new(),
            geometries: Vec::new(),
            cells: Vec::new(),
            reciever,
            sender,
            lights: Vec::new(),
            surface: SurfaceConfig { width: extent.w, height: extent.h, retried: false },
            matrix_capacity: 0,
        };
        proof {
            assert(r.geoms_view() =~= Seq::<Seq<PrimitiveState>>::empty());
        }
        r
    }

    /// Create a geometry: its buffer uploaded once, and each included
    /// descriptor made into a live primitive at once, its list position
    /// becoming its id.
    pub fn create_geometry(&mut self, descriptor: &GeometryDescriptor) -> (handle: Geometry)
        requires
            old(self).wf(),
            old(self).geoms_view().len() < 0x0fff_ffff,
            descriptor.primitives@.len() + old(self).spec_events().len() <= 0x3fff_ffff,
        ensures
            final(self).wf(),
            handle.geometry_id as int == old(self).geoms_view().len(),
            geom_live(handle, *final(self)),
            final(self).geoms_view() == old(self).geoms_view().push(
                init_prims(descriptor.primitives@),
            ),
            final(self).buffers_view() == old(self).buffers_view().push(
                descriptor.geometry_buffer@,
            ),
            final(self).spec_cells() == old(self).spec_cells(),
            final(self).spec_events() == old(self).spec_events(),
            final(self).spec_lights() == old(self).spec_lights(),
            final(self).spec_surface() == old(self).spec_surface(),
            final(self).spec_capacity() == old(self).spec_capacity(),
            final(self).spec_camera() == old(self).spec_camera(),
    {
        let gid = self.geometries.len() as u32;
        let n = descriptor.primitives.len();
        let mut prims: Vec<PrimitiveState> = Vec::new();
        let mut k: usize = 0;
        while k < n
            invariant
                k <= n,
                n == descriptor.primitives@.len(),
                prims@.len() == k,
                forall|i: int|
                    0 <= i < k ==> #[trigger] prims@[i] == prim_from_descriptor(
                        descriptor.primitives@[i],
                        i as u32,
                    ),
            decreases n - k,
        {
            let d = descriptor.primitives[k];
            let p = PrimitiveState {
                vertex_accessor: d.vertex_accessor,
                index_accessor: d.index_accessor,
                transform: Mat4x4::identity(),
                color: d.color,
                id: k as u32,
            };
            prims.push(p);
            k += 1;
        }
        proof {
            assert(prims@ =~= init_prims(descriptor.primitives@));
        }
        let buffer = copy_bytes(&descriptor.geometry_buffer);
        proof {
            lemma_geoms_grow(
                self.geoms_view(),
                self.cells@,
                self.reciever.events(),
                init_prims(descriptor.primitives@),
            );
        }
        self.geometries.push(GeometryState { buffer, primitives: prims });
        proof {
            assert(self.geoms_view() =~= old(self).geoms_view().push(
                init_prims(descriptor.primitives@),
            ));
            assert(self.buffers_view() =~= old(self).buffers_view().push(
                descriptor.geometry_buffer@,
            ));
            assert(cells_ok(self.geoms_view(), self.cells@)) by {
                assert forall|c: int| 0 <= c < self.cells@.len() implies {
                    &&& (((#[trigger] self.cells@[c]).geometry as int) < self.geoms_view().len())
                    &&& (self.cells@[c].resolved is Some ==> cell_pid(self.cells@[c])
                        < self.geoms_view()[self.cells@[c].geometry as int].len())
                } by {
                    assert((old(self).cells@[c].geometry as int) < old(self).geoms_view().len());
                    assert(self.geoms_view()[self.cells@[c].geometry as int] == old(
                        self,
                    ).geoms_view()[self.cells@[c].geometry as int]);
                }
            }
        }
        Geometry { geometry_id: gid }
    }

    /// Create a directional light from its descriptor; the handle refers to
    /// the stored light by position.
    pub fn create_directional_light(&mut self, descriptor: &DirectionalLightDescriptor) -> (l:
        DirectionalLight)
        requires
            old(self).wf(),
            old(self).spec_lights().len() < 0xffff_ffff,
        ensures
            final(self).wf(),
            l.id as int == old(self).spec_lights().len(),
            final(self).spec_lights() == old(self).spec_lights().push(*descriptor),
            final(self).geoms_view() == old(self).geoms_view(),
            final(self).buffers_view() == old(self).buffers_view(),
            final(self).spec_cells() == old(self).spec_cells(),
            final(self).spec_events() == old(self).spec_events(),
            final(self).spec_surface() == old(self).spec_surface(),
            final(self).spec_capacity() == old(self).spec_capacity(),
            final(self).spec_camera() == old(self).spec_camera(),
    {
        let id = self.lights.len() as u32;
        self.lights.push(*descriptor);
        DirectionalLight { id }
    }

    /// An empty frame-scoped collection.
    pub fn create_scene(&self) -> (s: Scene)
        ensures
            s.spec_prims().len() == 0,
            s.spec_lights().len() == 0,
    {
        Scene { primitives: Vec::new(), lights: Vec::new() }
    }

    /// Mutable access to the camera, for per-frame camera control.
    pub fn lock_camera(&mut self) -> (c: &mut Camera)
        requires
            old(self).wf(),
        ensures
            *c == old(self).spec_camera(),
            final(self).spec_camera() == *final(c),
            final(self).wf(),
            final(self).geoms_view() == old(self).geoms_view(),
            final(self).buffers_view() == old(self).buffers_view(),
            final(self).spec_cells() == old(self).spec_cells(),
            final(self).spec_events() == old(self).spec_events(),
            final(self).spec_lights() == old(self).spec_lights(),
            final(self).spec_surface() == old(self).spec_surface(),
            final(self).spec_capacity() == old(self).spec_capacity(),
    {
        &mut self.camera
    }

    /// Update the stored surface configuration and reconfigure, skipping
    /// the reconfiguration entirely when the extent is unchanged.
    pub fn resize(&mut self, extent: Ext2) -> (performed: bool)
        requires
            old(self).wf(),
        ensures
            final(self).wf(),
            (final(self).spec_surface(), performed) == spec_resize(
                old(self).spec_surface(),
                extent,
            ),
            !performed ==> *final(self) == *old(self),
            final(self).geoms_view() == old(self).geoms_view(),
            final(self).buffers_view() == old(self).buffers_view(),
            final(self).spec_cells() == old(self).spec_cells(),
            final(self).spec_events() == old(self).spec_events(),
            final(self).spec_lights() == old(self).spec_lights(),
            final(self).spec_capacity() == old(self).spec_capacity(),
            final(self).spec_camera() == old(self).spec_camera(),
    {
        if self.surface.width == extent.w && self.surface.height == extent.h {
            return false;
        }
        self.surface.width = extent.w;
        self.surface.height = extent.h;
        true
    }

    /// One step of the frame-acquisition protocol; the caller performs the
    /// returned remediation (if any) before the next attempt.
    pub fn acquire_attempt(&mut self, result: AcquireResult, window: Ext2) -> (a: AcquireAction)
        requires
            old(self).wf(),
        ensures
            final(self).wf(),
            (final(self).spec_surface(), a) == spec_acquire(
                old(self).spec_surface(),
                result,
                window,
            ),
            final(self).geoms_view() == old(self).geoms_view(),
            final(self).buffers_view() == old(self).buffers_view(),
            final(self).spec_cells() == old(self).spec_cells(),
            final(self).spec_events() == old(self).spec_events(),
            final(self).spec_lights() == old(self).spec_lights(),
            final(self).spec_capacity() == old(self).spec_capacity(),
            final(self).spec_camera() == old(self).spec_camera(),
    {
        match result {
            AcquireResult::Frame => {
                self.surface.retried = false;
                AcquireAction::Proceed
            },
            AcquireResult::Timeout => AcquireAction::Skip,
            AcquireResult::OutOfMemory => AcquireAction::Skip,
            AcquireResult::Lost => {
                if self.surface.retried {
                    self.surface.retried = false;
                    AcquireAction::Skip
                } else {
                    self.surface.retried = true;
                    AcquireAction::Remediate(RemedyKind::RecreateSurface)
                }
            },
            AcquireResult::Outdated => {
                if self.surface.retried {
                    self.surface.retried = false;
                    AcquireAction::Skip
                } else if window.w == 0 || window.h == 0 {
                    AcquireAction::Skip
                } else {
                    self.surface.width = window.w;
                    self.surface.height = window.h;
                    self.surface.retried = true;
                    AcquireAction::Remediate(RemedyKind::Reconfigure(window))
                }
            },
        }
    }
}

/// The geometry a handle names exists.
pub open spec fn geom_live(g: Geometry, r: Render) -> bool {
    (g.geometry_id as int) < r.geoms_view().len()
}

/// The primitive a handle names exists once the pending queue is drained:
/// its cell belongs to the handle's geometry and resolves there.
pub open spec fn prim_live(p: Primitive, r: Render) -> bool {
    &&& (p.primitive_id as int) < r.end_cells().len()
    &&& r.end_cells()[p.primitive_id as int].geometry == p.geometry_id
    &&& r.end_cells()[p.primitive_id as int].resolved is Some
}

impl Geometry {
    /// Queue the creation of a primitive in this geometry. The returned
    /// handle is backed by an id cell that the next drain fills in; it is
    /// valid for any frame whose render call comes after this request.
    pub fn create_primitive(&self, render: &mut Render, descriptor: &PrimitiveDescriptor) -> (p:
        Primitive)
        requires
            old(render).wf(),
            geom_live(*self, *old(render)),
            old(render).has_room(),
        ensures
            final(render).wf(),
            p.geometry_id == self.geometry_id,
            p.primitive_id as int == old(render).spec_cells().len(),
            prim_live(p, *final(render)),
            final(render).geoms_view() == old(render).geoms_view(),
            final(render).buffers_view() == old(render).buffers_view(),
            final(render).spec_cells() == old(render).spec_cells().push(
                IdCell { geometry: self.geometry_id, resolved: None },
            ),
            final(render).spec_events() == old(render).spec_events().push(
                GeometryEvent {
                    id: self.geometry_id,
                    ty: GeometryEventType::CreatePrimitive {
                        id_dst: old(render).spec_cells().len() as usize,
                        descriptor: *descriptor,
                    },
                },
            ),
            final(render).spec_lights() == old(render).spec_lights(),
            final(render).spec_surface() == old(render).spec_surface(),
            final(render).spec_capacity() == old(render).spec_capacity(),
            final(render).spec_camera() == old(render).spec_camera(),
    {
        let cell = render.cells.len();
        let newcell = IdCell { geometry: self.geometry_id, resolved: None };
        let ev = GeometryEvent {
            id: self.geometry_id,
            ty: GeometryEventType::CreatePrimitive { id_dst: cell, descriptor: *descriptor },
        };
        proof {
            lemma_cells_grow(
                render.geoms_view(),
                render.cells@,
                render.reciever.events(),
                newcell,
            );
            lemma_apply_many(render.geoms_view(), render.cells@, render.reciever.events());
            let end0 = apply_events(
                render.geoms_view(),
                render.cells@.push(newcell),
                render.reciever.events(),
            ).0;
            let end1 = apply_events(
                render.geoms_view(),
                render.cells@.push(newcell),
                render.reciever.events(),
            ).1;
            assert(end1[cell as int] == newcell);
            assert(ev_ok(end0, end1, ev));
            lemma_push_event(
                render.geoms_view(),
                render.cells@.push(newcell),
                render.reciever.events(),
                ev,
            );
        }
        render.cells.push(newcell);
        let s = render.sender.clone();
        s.add_event(&mut render.reciever, ev);
        proof {
            assert(cells_ok(render.geoms_view(), render.cells@)) by {
                assert forall|c: int| 0 <= c < render.cells@.len() implies {
                    &&& (((#[trigger] render.cells@[c]).geometry as int)
                        < render.geoms_view().len())
                    &&& (render.cells@[c].resolved is Some ==> cell_pid(render.cells@[c])
                        < render.geoms_view()[render.cells@[c].geometry as int].len())
                } by {
                    if c < old(render).cells@.len() {
                        assert(render.cells@[c] == old(render).cells@[c]);
                    }
                }
            }
        }
        Primitive { geometry_id: self.geometry_id, primitive_id: cell }
    }
}

impl Primitive {
    /// Queue a new world transform for this primitive; the drain writes the
    /// transform and its inverse into the primitive's uniform buffer.
    pub fn set_transform(&self, render: &mut Render, transform: Mat4x4)
        requires
            old(render).wf(),
            prim_live(*self, *old(render)),
            old(render).has_room(),
            transform_ok(transform),
        ensures
            final(render).wf(),
            prim_live(*self, *final(render)),
            final(render).geoms_view() == old(render).geoms_view(),
            final(render).buffers_view() == old(render).buffers_view(),
            final(render).spec_cells() == old(render).spec_cells(),
            final(render).spec_events() == old(render).spec_events().push(
                GeometryEvent {
                    id: self.geometry_id,
                    ty: GeometryEventType::SetTransform {
                        transform,
                        primitive: self.primitive_id,
                    },
                },
            ),
            final(render).spec_lights() == old(render).spec_lights(),
            final(render).spec_surface() == old(render).spec_surface(),
            final(render).spec_capacity() == old(render).spec_capacity(),
            final(render).spec_camera() == old(render).spec_camera(),
    {
        let ev = GeometryEvent {
            id: self.geometry_id,
            ty: GeometryEventType::SetTransform { transform, primitive: self.primitive_id },
        };
        proof {
            lemma_apply_many(render.geoms_view(), render.cells@, render.reciever.events());
            lemma_push_event(render.geoms_view(), render.cells@, render.reciever.events(), ev);
        }
        let s = render.sender.clone();
        s.add_event(&mut render.reciever, ev);
    }

    /// Queue a new world transform when it has a representable inverse,
    /// exactly as `set_transform` then does; report `false`, queueing
    /// nothing, when it has none.
    pub fn try_set_transform(&self, render: &mut Render, transform: Mat4x4) -> (queued: bool)
        requires
            old(render).wf(),
            prim_live(*self, *old(render)),
            old(render).has_room(),
        ensures
            queued == transform_ok(transform),
            !queued ==> *final(render) == *old(render),
            final(render).wf(),
            prim_live(*self, *final(render)),
            final(render).geoms_view() == old(render).geoms_view(),
            final(render).buffers_view() == old(render).buffers_view(),
            final(render).spec_cells() == old(render).spec_cells(),
            final(render).spec_events() == if transform_ok(transform) {
                old(render).spec_events().push(
                    GeometryEvent {
                        id: self.geometry_id,
                        ty: GeometryEventType::SetTransform {
                            transform,
                            primitive: self.primitive_id,
                        },
                    },
                )
            } else {
                old(render).spec_events()
            },
            final(render).spec_lights() == old(render).spec_lights(),
            final(render).spec_surface() == old(render).spec_surface(),
            final(render).spec_capacity() == old(render).spec_capacity(),
            final(render).spec_camera() == old(render).spec_camera(),
    {
        if !transform.entries_bounded(0x400_0000) {
            return false;
        }
        match transform.try_inversed() {
            None => false,
            Some(_) => {
                self.set_transform(render, transform);
                true
            },
        }
    }

    /// Queue a new base color for this primitive.
    pub fn set_base_color(&self, render: &mut Render, base_color: Vec3)
        requires
            old(render).wf(),
            prim_live(*self, *old(render)),
            old(render).has_room(),
        ensures
            final(render).wf(),
            prim_live(*self, *final(render)),
            final(render).geoms_view() == old(render).geoms_view(),
            final(render).buffers_view() == old(render).buffers_view(),
            final(render).spec_cells() == old(render).spec_cells(),
            final(render).spec_events() == old(render).spec_events().push(
                GeometryEvent {
                    id: self.geometry_id,
                    ty: GeometryEventType::SetBaseColor {
                        base_color,
                        primitive: self.primitive_id,
                    },
                },
            ),
            final(render).spec_lights() == old(render).spec_lights(),
            final(render).spec_surface() == old(render).spec_surface(),
            final(render).spec_capacity() == old(render).spec_capacity(),
            final(render).spec_camera() == old(render).spec_camera(),
    {
        let ev = GeometryEvent {
            id: self.geometry_id,
            ty: GeometryEventType::SetBaseColor { base_color, primitive: self.primitive_id },
        };
        proof {
            lemma_apply_many(render.geoms_view(), render.cells@, render.reciever.events());
            lemma_push_event(render.geoms_view(), render.cells@, render.reciever.events(), ev);
        }
        let s = render.sender.clone();
        s.add_event(&mut render.reciever, ev);
    }

    /// Queue a duplicate of this primitive: the copy shares the geometry,
    /// keeps the source's color, accessors, and in-flight transform, and
    /// gets a fresh id of its own.
    pub fn clone_primitive(&self, render: &mut Render) -> (p: Primitive)
        requires
            old(render).wf(),
            prim_live(*self, *old(render)),
            old(render).has_room(),
        ensures
            final(render).wf(),
            p.geometry_id == self.geometry_id,
            p.primitive_id as int == old(render).spec_cells().len(),
            prim_live(p, *final(render)),
            prim_live(*self, *final(render)),
            final(render).geoms_view() == old(render).geoms_view(),
            final(render).buffers_view() == old(render).buffers_view(),
            final(render).spec_cells() == old(render).spec_cells().push(
                IdCell { geometry: self.geometry_id, resolved: None },
            ),
            final(render).spec_events() == old(render).spec_events().push(
                GeometryEvent {
                    id: self.geometry_id,
                    ty: GeometryEventType::ClonePrimitive {
                        src_id: self.primitive_id,
                        dst_id: old(render).spec_cells().len() as usize,
                    },
                },
            ),
            final(render).spec_lights() == old(render).spec_lights(),
            final(render).spec_surface() == old(render).spec_surface(),
            final(render).spec_capacity() == old(render).spec_capacity(),
            final(render).spec_camera() == old(render).spec_camera(),
    {
        let cell = render.cells.len();
        let newcell = IdCell { geometry: self.geometry_id, resolved: None };
        let ev = GeometryEvent {
            id: self.geometry_id,
            ty: GeometryEventType::ClonePrimitive { src_id: self.primitive_id, dst_id: cell },
        };
        proof {
            lemma_cells_grow(
                render.geoms_view(),
                render.cells@,
                render.reciever.events(),
                newcell,
            );
            lemma_apply_many(render.geoms_view(), render.cells@, render.reciever.events());
            let end1 = apply_events(
                render.geoms_view(),
                render.cells@.push(newcell),
                render.reciever.events(),
            ).1;
            assert(end1[cell as int] == newcell);
            assert(end1[self.primitive_id as int] == apply_events(
                render.geoms_view(),
                render.cells@,
                render.reciever.events(),
            ).1[self.primitive_id as int]);
            lemma_push_event(
                render.geoms_view(),
                render.cells@.push(newcell),
                render.reciever.events(),
                ev,
            );
        }
        render.cells.push(newcell);
        let s = render.sender.clone();
        s.add_event(&mut render.reciever, ev);
        proof {
            assert(cells_ok(render.geoms_view(), render.cells@)) by {
                assert forall|c: int| 0 <= c < render.cells@.len() implies {
                    &&& (((#[trigger] render.cells@[c]).geometry as int)
                        < render.geoms_view().len())
                    &&& (render.cells@[c].resolved is Some ==> cell_pid(render.cells@[c])
                        < render.geoms_view()[render.cells@[c].geometry as int].len())
                } by {
                    if c < old(render).cells@.len() {
                        assert(render.cells@[c] == old(render).cells@[c]);
                    }
                }
            }
        }
        Primitive { geometry_id: self.geometry_id, primitive_id: cell }
    }
}

impl Render {
    /// Drain the deferred queue completely, oldest first: each event is
    /// applied to the scene state exactly as the sequential in-memory model
    /// `apply_events` says, and its GPU writes are appended to `cmds` in
    /// the same order.
    #[verifier::rlimit(100)]
    fn drain_events(&mut self, cmds: &mut Vec<GpuCommand>)
        requires
            old(self).wf(),
        ensures
            final(self).wf(),
            final(self).geoms_view() == apply_events(
                old(self).geoms_view(),
                old(self).spec_cells(),
                old(self).spec_events(),
            ).0,
            final(self).spec_cells() == apply_events(
                old(self).geoms_view(),
                old(self).spec_cells(),
                old(self).spec_events(),
            ).1,
            final(self).spec_events().len() == 0,
            final(cmds)@ == old(cmds)@ + events_commands(
                old(self).geoms_view(),
                old(self).spec_cells(),
                old(self).spec_events(),
            ),
            final(self).buffers_view() == old(self).buffers_view(),
            final(self).spec_lights() == old(self).spec_lights(),
            final(self).spec_surface() == old(self).spec_surface(),
            final(self).spec_capacity() == old(self).spec_capacity(),
            final(self).spec_camera() == old(self).spec_camera(),
    {
        let mut done: bool = false;
        while !done
            invariant
                self.wf(),
                done ==> self.reciever.events().len() == 0,
                apply_events(self.geoms_view(), self.cells@, self.reciever.events()).0
                    == apply_events(
                    old(self).geoms_view(),
                    old(self).spec_cells(),
                    old(self).spec_events(),
                ).0,
                apply_events(self.geoms_view(), self.cells@, self.reciever.events()).1
                    == apply_events(
                    old(self).geoms_view(),
                    old(self).spec_cells(),
                    old(self).spec_events(),
                ).1,
                cmds@ + events_commands(self.geoms_view(), self.cells@, self.reciever.events())
                    == old(cmds)@ + events_commands(
                    old(self).geoms_view(),
                    old(self).spec_cells(),
                    old(self).spec_events(),
                ),
                self.buffers_view() == old(self).buffers_view(),
                self.lights@ == old(self).lights@,
                self.surface == old(self).surface,
                self.matrix_capacity == old(self).matrix_capacity,
                self.camera == old(self).camera,
            decreases self.reciever.events().len() + (if done {
                0int
            } else {
                1int
            }),
        {
            let ghost prev_g = self.geoms_view();
            let ghost prev_c = self.cells@;
            let ghost prev_evs = self.reciever.events();
            let ghost prev_cmds = cmds@;
            let e_opt = self.reciever.poll_event();
            match e_opt {
                None => {
                    done = true;
                },
                Some(e) => {
                    proof {
                        assert(e == prev_evs[0]);
                        assert(ev_ok(prev_g, prev_c, e));
                        lemma_apply_one(prev_g, prev_c, e);
                        assert((e.id as int) < self.geometries@.len());
                    }
                    let gi = e.id as usize;
                    match e.ty {
                        GeometryEventType::SetTransform { transform, primitive } => {
                            let pid32 = match self.cells[primitive].resolved {
                                Some(p) => p,
                                None => {
                                    proof {
                                        assert(false);
                                    }
                                    0
                                },
                            };
                            let pid = pid32 as usize;
                            let inv = transform.inversed();
                            let prim = self.geometries[gi].primitives[pid];
                            let updated = PrimitiveState {
                                vertex_accessor: prim.vertex_accessor,
                                index_accessor: prim.index_accessor,
                                transform,
                                color: prim.color,
                                id: prim.id,
                            };
                            set_prim(&mut self.geometries, gi, pid, updated);
                            cmds.push(
                                GpuCommand::WriteTransform {
                                    geometry: e.id,
                                    primitive: pid32,
                                    transform,
                                    inverse: inv,
                                },
                            );
                            proof {
                                assert(self.geoms_view() =~~= apply_event(prev_g, prev_c, e).0);
                                assert(cmds@ =~= prev_cmds + event_commands(prev_g, prev_c, e));
                            }
                        },
                        GeometryEventType::SetBaseColor { base_color, primitive } => {
                            let pid32 = match self.cells[primitive].resolved {
                                Some(p) => p,
                                None => {
                                    proof {
                                        assert(false);
                                    }
                                    0
                                },
                            };
                            let pid = pid32 as usize;
                            let prim = self.geometries[gi].primitives[pid];
                            let updated = PrimitiveState {
                                vertex_accessor: prim.vertex_accessor,
                                index_accessor: prim.index_accessor,
                                transform: prim.transform,
                                color: base_color,
                                id: prim.id,
                            };
                            set_prim(&mut self.geometries, gi, pid, updated);
                            cmds.push(
                                GpuCommand::WriteColor {
                                    geometry: e.id,
                                    primitive: pid32,
                                    color: base_color,
                                },
                            );
                            proof {
                                assert(self.geoms_view() =~~= apply_event(prev_g, prev_c, e).0);
                                assert(cmds@ =~= prev_cmds + event_commands(prev_g, prev_c, e));
                            }
                        },
                        GeometryEventType::CreatePrimitive { id_dst, descriptor } => {
                            proof {
                                assert(prev_g[gi as int].len() + prev_evs.len() <= 0x3fff_ffff);
                            }
                            let pid32 = self.geometries[gi].primitives.len() as u32;
                            let p = PrimitiveState {
                                vertex_accessor: descriptor.vertex_accessor,
                                index_accessor: descriptor.index_accessor,
                                transform: Mat4x4::identity(),
                                color: descriptor.color,
                                id: pid32,
                            };
                            push_prim(&mut self.geometries, gi, p);
                            self.cells.set(id_dst, IdCell { geometry: e.id, resolved: Some(pid32) });
                            cmds.push(
                                GpuCommand::CreateUniform {
                                    geometry: e.id,
                                    primitive: pid32,
                                    color: descriptor.color,
                                },
                            );
                            proof {
                                assert(p == prim_from_descriptor(descriptor, pid32));
                                assert(self.geoms_view() =~~= apply_event(prev_g, prev_c, e).0);
                                assert(self.cells@ =~= apply_event(prev_g, prev_c, e).1);
                                assert(cmds@ =~= prev_cmds + event_commands(prev_g, prev_c, e));
                            }
                        },
                        GeometryEventType::ClonePrimitive { src_id, dst_id } => {
                            proof {
                                assert(prev_g[gi as int].len() + prev_evs.len() <= 0x3fff_ffff);
                            }
                            let src32 = match self.cells[src_id].resolved {
                                Some(p) => p,
                                None => {
                                    proof {
                                        assert(false);
                                    }
                                    0
                                },
                            };
                            let sp = self.geometries[gi].primitives[src32 as usize];
                            let pid32 = self.geometries[gi].primitives.len() as u32;
                            let np = PrimitiveState {
                                vertex_accessor: sp.vertex_accessor,
                                index_accessor: sp.index_accessor,
                                transform: sp.transform,
                                color: sp.color,
                                id: pid32,
                            };
                            push_prim(&mut self.geometries, gi, np);
                            self.cells.set(dst_id, IdCell { geometry: e.id, resolved: Some(pid32) });
                            cmds.push(
                                GpuCommand::CopyUniform {
                                    geometry: e.id,
                                    src: src32,
                                    dst: pid32,
                                },
                            );
                            cmds.push(
                                GpuCommand::WritePrimitiveId {
                                    geometry: e.id,
                                    primitive: pid32,
                                    id: pid32,
                                },
                            );
                            proof {
                                assert(self.geoms_view() =~~= apply_event(prev_g, prev_c, e).0);
                                assert(self.cells@ =~= apply_event(prev_g, prev_c, e).1);
                                assert(cmds@ =~= prev_cmds + event_commands(prev_g, prev_c, e));
                            }
                        },
                    }
                    proof {
                        assert(self.geoms_view() == apply_event(prev_g, prev_c, e).0);
                        assert(self.cells@ == apply_event(prev_g, prev_c, e).1);
                        assert(self.reciever.events() == prev_evs.drop_first());
                        assert forall|g: int| 0 <= g < self.geoms_view().len() implies (
                        #[trigger] self.geoms_view()[g]).len() + self.reciever.events().len()
                            <= 0x3fff_ffff by {
                            assert(prev_g[g].len() + prev_evs.len() <= 0x3fff_ffff);
                            assert(self.geoms_view()[g].len() <= prev_g[g].len() + 1);
                        }
                    }
                },
            }
        }
        proof {
            assert(events_commands(self.geoms_view(), self.cells@, self.reciever.events())
                =~= Seq::<GpuCommand>::empty());
            assert(cmds@ =~= old(cmds)@ + events_commands(
                old(self).geoms_view(),
                old(self).spec_cells(),
                old(self).spec_events(),
            ));
        }
    }
}

/// The slot-offset writes of one frame: each scene primitive gets the next
/// contiguous matrix slot, and the offset is written into its own uniform.
pub open spec fn slot_cmds(prims: Seq<ScenePrim>, cells: Seq<IdCell>) -> Seq<GpuCommand> {
    Seq::new(
        prims.len(),
        |k: int|
            GpuCommand::WriteSlotOffset {
                geometry: prims[k].geometry,
                primitive: cell_pid(cells[prims[k].cell as int]) as u32,
                offset: k as u64,
            },
    )
}

/// The draw calls of one frame, in scene order: indexed when the primitive
/// has an index accessor, plain otherwise.
pub open spec fn draw_cmds(
    prims: Seq<ScenePrim>,
    geoms: Seq<Seq<PrimitiveState>>,
    cells: Seq<IdCell>,
) -> Seq<GpuCommand> {
    Seq::new(
        prims.len(),
        |k: int|
            {
                let p = geoms[prims[k].geometry as int][cell_pid(cells[prims[k].cell as int])];
                match p.index_accessor {
                    Some(ia) => GpuCommand::DrawIndexed {
                        geometry: prims[k].geometry,
                        primitive: p.id,
                        count: ia.count,
                    },
                    None => GpuCommand::Draw {
                        geometry: prims[k].geometry,
                        primitive: p.id,
                        count: p.vertex_accessor.count,
                    },
                }
            },
    )
}

/// The additive light blends of one frame, in scene order.
pub open spec fn light_cmds(lights: Seq<u32>) -> Seq<GpuCommand> {
    Seq::new(lights.len(), |k: int| GpuCommand::BlendLight { light: lights[k] })
}

/// The stations a presented frame passes, in order.
pub open spec fn spec_frame_phases() -> Seq<Phase> {
    seq![
        Phase::EventsDrained,
        Phase::FrameAcquired,
        Phase::BuffersSized,
        Phase::MatricesComputed,
        Phase::GeometryPassDone,
        Phase::LightingPassDone,
        Phase::Presented,
    ]
}

/// Every scene entry names a primitive that is live once the renderer's
/// queue is drained, and a light that exists.
pub open spec fn scene_ok(scene: Scene, r: Render) -> bool {
    &&& scene.spec_prims().len() <= 0xffff_ffff
    &&& scene.spec_lights().len() <= 0xffff_ffff
    &&& forall|k: int|
        0 <= k < scene.spec_prims().len() ==> {
            let sp = #[trigger] scene.spec_prims()[k];
            &&& (sp.cell as int) < r.end_cells().len()
            &&& r.end_cells()[sp.cell as int].geometry == sp.geometry
            &&& r.end_cells()[sp.cell as int].resolved is Some
        }
    &&& forall|k: int|
        0 <= k < scene.spec_lights().len() ==> (#[trigger] scene.spec_lights()[k] as int)
            < r.spec_lights().len()
}

/// The full command list of a presented frame.
pub open spec fn frame_cmds(r: Render, scene: Scene) -> Seq<GpuCommand> {
    let end0 = r.end_geoms();
    let end1 = r.end_cells();
    let grow = scene.spec_prims().len() > r.spec_capacity();
    events_commands(r.geoms_view(), r.spec_cells(), r.spec_events()) + (if grow {
        seq![GpuCommand::GrowMatrixBuffers { capacity: scene.spec_prims().len() as u64 }]
    } else {
        Seq::<GpuCommand>::empty()
    }) + slot_cmds(scene.spec_prims(), end1) + seq![
        GpuCommand::WriteCamera {
            view_projection: r.spec_camera().spec_matrices().view_projection,
        },
        GpuCommand::ComputeMatrices { slots: scene.spec_prims().len() as u64 },
        GpuCommand::BeginGeometryPass,
    ] + draw_cmds(scene.spec_prims(), end0, end1) + seq![GpuCommand::BeginLightingPass]
        + light_cmds(scene.spec_lights()) + seq![GpuCommand::Present]
}

impl Render {
    /// Render one frame. The two acquire results stand for what the surface
    /// handed back on the first attempt and on the retry after remediation.
    /// The deferred queue is always drained completely first — before any
    /// acquire attempt — so a primitive requested before this call is live
    /// for this frame, and its buffer writes are issued even when the frame
    /// is then dropped. When no frame can be had the rest of the tick is
    /// skipped: the result carries only the drain's writes, and nothing
    /// besides the drained state and the acquire bookkeeping changes. With
    /// a frame in hand, the matrix buffers grow (and never shrink) to the
    /// frame's slot count, and the command list runs the compute pass
    /// before the geometry pass, the geometry pass before the lighting
    /// pass, and presents last.
    #[verifier::rlimit(100)]
    pub fn render_scene(
        &mut self,
        scene: &Scene,
        first: AcquireResult,
        retry: AcquireResult,
        window: Ext2,
    ) -> (res: FrameResult)
        requires
            old(self).wf(),
            scene_ok(*scene, *old(self)),
        ensures
            final(self).wf(),
            final(self).spec_surface() == surface_after(
                old(self).spec_surface(),
                first,
                retry,
                window,
            ),
            final(self).spec_lights() == old(self).spec_lights(),
            final(self).spec_camera() == old(self).spec_camera(),
            final(self).buffers_view() == old(self).buffers_view(),
            final(self).spec_capacity() >= old(self).spec_capacity(),
            final(self).geoms_view() == old(self).end_geoms(),
            final(self).spec_cells() == old(self).end_cells(),
            final(self).spec_events().len() == 0,
            (res is Presented) == presented_ok(old(self).spec_surface(), first, retry, window),
            !presented_ok(old(self).spec_surface(), first, retry, window) ==> {
                &&& final(self).spec_capacity() == old(self).spec_capacity()
                &&& (res matches FrameResult::Skipped { commands } ==> commands@
                    == events_commands(
                    old(self).geoms_view(),
                    old(self).spec_cells(),
                    old(self).spec_events(),
                ))
            },
            presented_ok(old(self).spec_surface(), first, retry, window) ==> {
                &&& final(self).spec_capacity() == if scene.spec_prims().len() > old(
                    self,
                ).spec_capacity() {
                    scene.spec_prims().len() as int
                } else {
                    old(self).spec_capacity()
                }
                &&& (res matches FrameResult::Presented { phases, commands } ==> phases@
                    == spec_frame_phases() && commands@ == frame_cmds(*old(self), *scene))
            },
    {
        let mut cmds: Vec<GpuCommand> = Vec::new();
        self.drain_events(&mut cmds);
        let mut phases: Vec<Phase> = Vec::new();
        phases.push(Phase::EventsDrained);
        proof {
            assert(cmds@ =~= events_commands(
                old(self).geoms_view(),
                old(self).spec_cells(),
                old(self).spec_events(),
            ));
        }
        let a1 = self.acquire_attempt(first, window);
        let ok: bool = match a1 {
            AcquireAction::Proceed => true,
            AcquireAction::Skip => false,
            AcquireAction::Remediate(_) => {
                let a2 = self.acquire_attempt(retry, window);
                match a2 {
                    AcquireAction::Proceed => true,
                    AcquireAction::Skip => false,
                    AcquireAction::Remediate(_) => false,
                }
            },
        };
        proof {
            assert(ok == presented_ok(old(self).spec_surface(), first, retry, window)) by {
                if !(spec_acquire(old(self).spec_surface(), first, window).1 is Remediate) {
                    assert(self.spec_surface() == spec_acquire(
                        old(self).spec_surface(),
                        first,
                        window,
                    ).0);
                }
            }
        }
        if !ok {
            return FrameResult::Skipped { commands: cmds };
        }
        phases.push(Phase::FrameAcquired);
        let slots = scene.primitives.len();
        let grow = slots > self.matrix_capacity;
        if grow {
            self.matrix_capacity = slots;
            cmds.push(GpuCommand::GrowMatrixBuffers { capacity: slots as u64 });
        }
        phases.push(Phase::BuffersSized);
        let ghost base1 = cmds@;
        let mut k: usize = 0;
        while k < slots
            invariant
                k <= slots,
                slots == scene.primitives@.len(),
                old(self).wf(),
                self.wf(),
                scene_ok(*scene, *old(self)),
                self.cells@ == old(self).end_cells(),
                self.geoms_view() == old(self).end_geoms(),
                cmds@ == base1 + slot_cmds(scene.spec_prims(), self.cells@).take(k as int),
                cmds@.len() == base1.len() + k,
            decreases slots - k,
        {
            let sp = scene.primitives[k];
            proof {
                lemma_apply_many(
                    old(self).geoms_view(),
                    old(self).spec_cells(),
                    old(self).spec_events(),
                );
            }
            let pid = match self.cells[sp.cell].resolved {
                Some(p) => p,
                None => {
                    proof {
                        assert(false);
                    }
                    0
                },
            };
            cmds.push(
                GpuCommand::WriteSlotOffset {
                    geometry: sp.geometry,
                    primitive: pid,
                    offset: k as u64,
                },
            );
            proof {
                assert(cmds@ =~= base1 + slot_cmds(scene.spec_prims(), self.cells@).take(
                    k as int + 1,
                ));
            }
            k += 1;
        }
        proof {
            assert(slot_cmds(scene.spec_prims(), self.cells@).take(slots as int) =~= slot_cmds(
                scene.spec_prims(),
                self.cells@,
            ));
        }
        cmds.push(
            GpuCommand::WriteCamera {
                view_projection: self.camera.get_matrices().view_projection,
            },
        );
        cmds.push(GpuCommand::ComputeMatrices { slots: slots as u64 });
        phases.push(Phase::MatricesComputed);
        cmds.push(GpuCommand::BeginGeometryPass);
        let ghost base2 = cmds@;
        let mut k2: usize = 0;
        while k2 < slots
            invariant
                k2 <= slots,
                slots == scene.primitives@.len(),
                old(self).wf(),
                self.wf(),
                scene_ok(*scene, *old(self)),
                self.cells@ == old(self).end_cells(),
                self.geoms_view() == old(self).end_geoms(),
                cmds@ == base2 + draw_cmds(scene.spec_prims(), self.geoms_view(), self.cells@).take(
                    k2 as int,
                ),
                cmds@.len() == base2.len() + k2,
            decreases slots - k2,
        {
            let sp = scene.primitives[k2];
            proof {
                lemma_apply_many(
                    old(self).geoms_view(),
                    old(self).spec_cells(),
                    old(self).spec_events(),
                );
                assert((sp.geometry as int) < self.geoms_view().len());
            }
            let pid = match self.cells[sp.cell].resolved {
                Some(p) => p,
                None => {
                    proof {
                        assert(false);
                    }
                    0
                },
            };
            let prim = self.geometries[sp.geometry as usize].primitives[pid as usize];
            match prim.index_accessor {
                Some(ia) => {
                    cmds.push(
                        GpuCommand::DrawIndexed {
                            geometry: sp.geometry,
                            primitive: prim.id,
                            count: ia.count,
                        },
                    );
                },
                None => {
                    cmds.push(
                        GpuCommand::Draw {
                            geometry: sp.geometry,
                            primitive: prim.id,
                            count: prim.vertex_accessor.count,
                        },
                    );
                },
            }
            proof {
                assert(cmds@ =~= base2 + draw_cmds(
                    scene.spec_prims(),
                    self.geoms_view(),
                    self.cells@,
                ).take(k2 as int + 1));
            }
            k2 += 1;
        }
        proof {
            assert(draw_cmds(scene.spec_prims(), self.geoms_view(), self.cells@).take(slots as int)
                =~= draw_cmds(scene.spec_prims(), self.geoms_view(), self.cells@));
        }
        phases.push(Phase::GeometryPassDone);
        cmds.push(GpuCommand::BeginLightingPass);
        let ghost base3 = cmds@;
        let nlights = scene.lights.len();
        let mut k3: usize = 0;
        while k3 < nlights
            invariant
                k3 <= nlights,
                nlights == scene.lights@.len(),
                cmds@ == base3 + light_cmds(scene.spec_lights()).take(k3 as int),
                cmds@.len() == base3.len() + k3,
            decreases nlights - k3,
        {
            let lid = scene.lights[k3];
            cmds.push(GpuCommand::BlendLight { light: lid });
            proof {
                assert(cmds@ =~= base3 + light_cmds(scene.spec_lights()).take(k3 as int + 1));
            }
            k3 += 1;
        }
        proof {
            assert(light_cmds(scene.spec_lights()).take(nlights as int) =~= light_cmds(
                scene.spec_lights(),
            ));
        }
        phases.push(Phase::LightingPassDone);
        cmds.push(GpuCommand::Present);
        phases.push(Phase::Presented);
        proof {
            assert(phases@ =~= spec_frame_phases());
            assert(cmds@ =~= frame_cmds(*old(self), *scene));
        }
        FrameResult::Presented { phases, commands: cmds }
    }
}

impl Render {
    /// How many geometries exist.
    pub fn geometry_count(&self) -> (r: usize)
        ensures
            r as int == self.geoms_view().len(),
    {
        self.geometries.len()
    }

    /// How many primitives one geometry holds; zero for an unknown one.
    pub fn primitive_count(&self, geometry: u32) -> (r: usize)
        ensures
            r as int == if (geometry as int) < self.geoms_view().len() {
                self.geoms_view()[geometry as int].len()
            } else {
                0
            },
    {
        if (geometry as usize) < self.geometries.len() {
            self.geometries[geometry as usize].primitives.len()
        } else {
            0
        }
    }

    /// The live state of one primitive, if it exists.
    pub fn get_primitive(&self, geometry: u32, primitive: u32) -> (r: Option<PrimitiveState>)
        ensures
            ({
                let ok = (geometry as int) < self.geoms_view().len() && (primitive as int)
                    < self.geoms_view()[geometry as int].len();
                &&& (ok ==> r == Some(self.geoms_view()[geometry as int][primitive as int]))
                &&& (!ok ==> r is None)
            }),
    {
        if (geometry as usize) < self.geometries.len() {
            let g = &self.geometries[geometry as usize];
            if (primitive as usize) < g.primitives.len() {
                Some(g.primitives[primitive as usize])
            } else {
                None
            }
        } else {
            None
        }
    }

    /// The primitive id a handle's cell has resolved to, if any yet.
    pub fn resolve(&self, p: &Primitive) -> (r: Option<u32>)
        ensures
            (p.primitive_id as int) < self.spec_cells().len() ==> r == self.spec_cells()[p.primitive_id as int].resolved,
            !((p.primitive_id as int) < self.spec_cells().len()) ==> r is None,
    {
        if p.primitive_id < self.cells.len() {
            self.cells[p.primitive_id].resolved
        } else {
            None
        }
    }

    /// How many deferred events wait for the next drain.
    pub fn pending_events(&self) -> (r: usize)
        ensures
            r as int == self.spec_events().len(),
    {
        self.reciever.len()
    }

    /// The current matrix-slot capacity.
    pub fn get_capacity(&self) -> (r: usize)
        ensures
            r as int == self.spec_capacity(),
    {
        self.matrix_capacity
    }

    /// The stored surface configuration.
    pub fn get_surface(&self) -> (r: SurfaceConfig)
        ensures
            r == self.spec_surface(),
    {
        self.surface
    }

    /// How many lights exist.
    pub fn light_count(&self) -> (r: usize)
        ensures
            r as int == self.spec_lights().len(),
    {
        self.lights.len()
    }

    /// One stored light's descriptor, if the handle is known.
    pub fn get_light(&self, l: &DirectionalLight) -> (r: Option<DirectionalLightDescriptor>)
        ensures
            (l.id as int) < self.spec_lights().len() ==> r == Some(self.spec_lights()[l.id as int]),
            !((l.id as int) < self.spec_lights().len()) ==> r is None,
    {
        if (l.id as usize) < self.lights.len() {
            Some(self.lights[l.id as usize])
        } else {
            None
        }
    }
}

} // verus!

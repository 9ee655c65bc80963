//! Submission of draw commands: for each command, commit its device state,
//! set up its material through the binding cache, bind its geometry and draw.
use vstd::prelude::*;
use crate::cache::{BindError, BindingCache, CacheModel, Step};
use crate::device::{DeviceOp, LightSlot};
use crate::queue::{merged_state, queue_defaults, DeviceState, DrawCommand, RenderQueueState};
use crate::scene::{Assets, Light};

verus! {

/// The lights of a frame: the main directional light and up to four point
/// lights.
pub struct FrameLights {
    pub main: Light,
    pub points: Vec<Light>,
}

pub struct LightsModel {
    pub main: Light,
    pub points: Seq<Light>,
}

impl View for FrameLights {
    type V = LightsModel;

    open spec fn view(&self) -> LightsModel {
        LightsModel { main: self.main, points: self.points@ }
    }
}

/// Why a frame was abandoned.
#[derive(Clone, Copy, Debug, PartialEq, Eq, Structural)]
pub enum FrameError {
    /// The resource with this handle failed to load.
    ResourceFailed(u64),
}

/// The uniform uploads of the frame's lights to program `p`.
pub open spec fn light_ops(p: u64, main: Light, points: Seq<Light>) -> Seq<DeviceOp> {
    seq![DeviceOp::UploadLight { program: p, slot: LightSlot::Directional, light: main }]
        + Seq::new(
        points.len(),
        |i: int| DeviceOp::UploadLight { program: p, slot: LightSlot::Point(i as usize), light: points[i] },
    )
}

/// Lights are state of a program: they are uploaded only when the program
/// differs from the one they were last uploaded to.
pub open spec fn light_step(c: CacheModel, p: u64, lights: LightsModel) -> Step {
    if c.light_program == Some(p) {
        Step { cache: c, ops: Seq::empty(), result: Ok(()) }
    } else {
        Step {
            cache: CacheModel { light_program: Some(p), ..c },
            ops: light_ops(p, lights.main, lights.points),
            result: Ok(()),
        }
    }
}

/// Binds the textures in order, stopping at the first that cannot be bound.
pub open spec fn textures_step(c: CacheModel, ts: Seq<u64>, a: &Assets) -> Step
    decreases ts.len(),
{
    if ts.len() == 0 {
        Step { cache: c, ops: Seq::empty(), result: Ok(()) }
    } else {
        let prev = textures_step(c, ts.drop_last(), a);
        if prev.result is Err {
            prev
        } else {
            let s = prev.cache.texture_step(ts.last(), a.status_spec(ts.last()));
            Step { cache: s.cache, ops: prev.ops + s.ops, result: s.result }
        }
    }
}

/// Sets up material `mid`: nothing when it is the material of the previous
/// draw; otherwise its program, its textures, and the lights, after which it
/// is recorded as the last material.
pub open spec fn material_step(c: CacheModel, mid: usize, a: &Assets, lights: LightsModel) -> Step {
    if c.material == Some(mid) {
        Step { cache: c, ops: Seq::empty(), result: Ok(()) }
    } else {
        let m = a.materials@[mid as int];
        let p = c.program_step(m.program, a.status_spec(m.program));
        if p.result is Err {
            p
        } else {
            let t = textures_step(p.cache, m.textures@, a);
            if t.result is Err {
                Step { cache: t.cache, ops: p.ops + t.ops, result: t.result }
            } else {
                let l = light_step(t.cache, m.program, lights);
                Step {
                    cache: CacheModel { material: Some(mid), ..l.cache },
                    ops: p.ops + t.ops + l.ops,
                    result: Ok(()),
                }
            }
        }
    }
}

/// The material a command draws with: the override, if any, else its
/// surface's own.
pub open spec fn material_of(cmd: DrawCommand, over: Option<usize>) -> usize {
    match over {
        Some(m) => m,
        None => cmd.surface.material,
    }
}

/// The operations of a draw once everything is bound.
pub open spec fn draw_ops(p: u64, cmd: DrawCommand) -> Seq<DeviceOp> {
    seq![
        DeviceOp::UploadCamera { program: p, object: cmd.object },
        DeviceOp::CommitProgram(p),
        DeviceOp::Draw(cmd.surface.buffer),
        DeviceOp::UnbindBuffer(cmd.surface.buffer),
    ]
}

/// One command: commit the merged state, set up the material, bind the
/// buffer and draw.  A resource that is not ready skips the draw; one that
/// failed ends the frame.
pub open spec fn command_step(c: CacheModel, cmd: DrawCommand, over: Option<usize>, a: &Assets, lights: LightsModel) -> Step {
    let mid = material_of(cmd, over);
    let m = a.materials@[mid as int];
    let ops0 = seq![DeviceOp::CommitState(merged_state(queue_defaults(cmd.queue), m.states))];
    let ms = material_step(c, mid, a, lights);
    if ms.result == Err::<(), BindError>(BindError::NotReady) {
        Step { cache: ms.cache, ops: ops0 + ms.ops, result: Ok(()) }
    } else if ms.result is Err {
        Step { cache: ms.cache, ops: ops0 + ms.ops, result: ms.result }
    } else {
        let b = ms.cache.buffer_step(cmd.surface.buffer, m.program, a.status_spec(cmd.surface.buffer));
        if b.result == Err::<(), BindError>(BindError::NotReady) {
            Step { cache: b.cache, ops: ops0 + ms.ops + b.ops, result: Ok(()) }
        } else if b.result is Err {
            Step { cache: b.cache, ops: ops0 + ms.ops + b.ops, result: b.result }
        } else {
            Step {
                cache: b.cache,
                ops: ops0 + ms.ops + b.ops + draw_ops(m.program, cmd),
                result: Ok(()),
            }
        }
    }
}

/// The commands in order, up to the first that fails.
pub open spec fn commands_step(c: CacheModel, cmds: Seq<DrawCommand>, over: Option<usize>, a: &Assets, lights: LightsModel) -> Step
    decreases cmds.len(),
{
    if cmds.len() == 0 {
        Step { cache: c, ops: Seq::empty(), result: Ok(()) }
    } else {
        let prev = commands_step(c, cmds.drop_last(), over, a, lights);
        if prev.result is Err {
            prev
        } else {
            let s = command_step(prev.cache, cmds.last(), over, a, lights);
            Step { cache: s.cache, ops: prev.ops + s.ops, result: s.result }
        }
    }
}

/// Every material the commands draw with exists.
pub open spec fn materials_known(cmds: Seq<DrawCommand>, over: Option<usize>, a: &Assets) -> bool {
    forall|i: int| 0 <= i < cmds.len() ==> material_of(#[trigger] cmds[i], over) < a.materials@.len()
}

pub fn setup_light(cache: &mut BindingCache, p: u64, lights: &FrameLights, ops: &mut Vec<DeviceOp>)
    requires
        old(cache).wf(),
    ensures
        final(cache).wf(),
        final(cache)@ == light_step(old(cache)@, p, lights@).cache,
        final(ops)@ == old(ops)@ + light_step(old(cache)@, p, lights@).ops,
{
    if cache.light_program == Some(p) {
        assert(ops@ =~= old(ops)@ + Seq::<DeviceOp>::empty());
        return;
    }
    cache.light_program = Some(p);
    ops.push(DeviceOp::UploadLight { program: p, slot: LightSlot::Directional, light: lights.main });
    let ghost base = ops@;
    let mut i: usize = 0;
    while i < lights.points.len()
        invariant
            i <= lights.points.len(),
            ops@ == base + Seq::new(
                i as nat,
                |k: int| DeviceOp::UploadLight { program: p, slot: LightSlot::Point(k as usize), light: lights.points@[k] },
            ),
        decreases lights.points.len() - i,
    {
        ops.push(DeviceOp::UploadLight { program: p, slot: LightSlot::Point(i), light: lights.points[i] });
        i += 1;
        assert(ops@ =~= base + Seq::new(
            i as nat,
            |k: int| DeviceOp::UploadLight { program: p, slot: LightSlot::Point(k as usize), light: lights.points@[k] },
        ));
    }
    assert(ops@ =~= old(ops)@ + light_ops(p, lights.main, lights.points@));
}

fn bind_textures(cache: &mut BindingCache, ts: &Vec<u64>, a: &Assets, ops: &mut Vec<DeviceOp>) -> (r: Result<(), BindError>)
    requires
        old(cache).wf(),
    ensures
        final(cache).wf(),
        final(cache)@ == textures_step(old(cache)@, ts@, a).cache,
        final(ops)@ == old(ops)@ + textures_step(old(cache)@, ts@, a).ops,
        r == textures_step(old(cache)@, ts@, a).result,
{
    let mut i: usize = 0;
    while i < ts.len()
        invariant
            i <= ts.len(),
            cache.wf(),
            textures_step(old(cache)@, ts@.take(i as int), a).result is Ok,
            cache@ == textures_step(old(cache)@, ts@.take(i as int), a).cache,
            ops@ == old(ops)@ + textures_step(old(cache)@, ts@.take(i as int), a).ops,
        decreases ts.len() - i,
    {
        assert(ts@.take(i + 1).drop_last() =~= ts@.take(i as int));
        let t = ts[i];
        let st = a.status(t);
        let r = cache.ensure_texture_unit(t, st, ops);
        i += 1;
        if r.is_err() {
            let e = match r {
                Err(e) => e,
                Ok(_) => BindError::NotReady,
            };
            proof {
                lemma_textures_stop(old(cache)@, ts@, a, i as int);
            }
            return Err(e);
        }
    }
    assert(ts@.take(ts.len() as int) =~= ts@);
    Ok(())
}

/// Once a texture fails, the steps after it change nothing.
proof fn lemma_textures_stop(c: CacheModel, ts: Seq<u64>, a: &Assets, i: int)
    requires
        0 <= i <= ts.len(),
        textures_step(c, ts.take(i), a).result is Err,
    ensures
        textures_step(c, ts, a) == textures_step(c, ts.take(i), a),
    decreases ts.len() - i,
{
    if i < ts.len() {
        assert(ts.take(i + 1).drop_last() =~= ts.take(i));
        lemma_textures_stop(c, ts, a, i + 1);
    } else {
        assert(ts.take(i) =~= ts);
    }
}

pub fn setup_material(cache: &mut BindingCache, mid: usize, a: &Assets, lights: &FrameLights, ops: &mut Vec<DeviceOp>) -> (r: Result<(), BindError>)
    requires
        old(cache).wf(),
        mid < a.materials.len(),
    ensures
        final(cache).wf(),
        final(cache)@ == material_step(old(cache)@, mid, a, lights@).cache,
        final(ops)@ == old(ops)@ + material_step(old(cache)@, mid, a, lights@).ops,
        r == material_step(old(cache)@, mid, a, lights@).result,
{
    if cache.material == Some(mid) {
        assert(ops@ =~= old(ops)@ + Seq::<DeviceOp>::empty());
        return Ok(());
    }
    let m = &a.materials[mid];
    let st = a.status(m.program);
    let ghost c0 = cache@;
    let r = cache.ensure_program(m.program, st, ops);
    if r.is_err() {
        return r;
    }
    let ghost c1 = cache@;
    let r = bind_textures(cache, &m.textures, a, ops);
    if r.is_err() {
        assert(ops@ =~= old(ops)@ + (c0.program_step(m.program, st).ops + textures_step(c1, m.textures@, a).ops));
        return r;
    }
    setup_light(cache, m.program, lights, ops);
    cache.material = Some(mid);
    assert(ops@ =~= old(ops)@ + material_step(old(cache)@, mid, a, lights@).ops);
    Ok(())
}

/// Submits one command.
#[verifier::rlimit(40)]
pub fn render_command(
    cache: &mut BindingCache,
    cmd: DrawCommand,
    states: &DeviceState,
    over: Option<usize>,
    a: &Assets,
    lights: &FrameLights,
    ops: &mut Vec<DeviceOp>,
) -> (r: Result<(), BindError>)
    requires
        old(cache).wf(),
        material_of(cmd, over) < a.materials.len(),
        *states == merged_state(queue_defaults(cmd.queue), a.materials@[material_of(cmd, over) as int].states),
    ensures
        final(cache).wf(),
        final(cache)@ == command_step(old(cache)@, cmd, over, a, lights@).cache,
        final(ops)@ == old(ops)@ + command_step(old(cache)@, cmd, over, a, lights@).ops,
        r == command_step(old(cache)@, cmd, over, a, lights@).result,
{
    let mid = match over {
        Some(m) => m,
        None => cmd.surface.material,
    };
    let m = &a.materials[mid];
    ops.push(DeviceOp::CommitState(*states));
    let ghost ops1 = ops@;
    let ghost c0 = cache@;
    let ghost whole = command_step(c0, cmd, over, a, lights@);
    let ghost ops0 = seq![DeviceOp::CommitState(*states)];
    assert(ops1 == old(ops)@ + ops0);
    let ghost ms = material_step(c0, mid, a, lights@);
    let r = setup_material(cache, mid, a, lights, ops);
    assert(ops@ == ops1 + ms.ops);
    match r {
        Err(BindError::NotReady) => {
            assert(whole.ops == ops0 + ms.ops);
            assert(ops@ =~= old(ops)@ + whole.ops);
            return Ok(());
        },
        Err(e) => {
            assert(whole.ops == ops0 + ms.ops);
            assert(ops@ =~= old(ops)@ + whole.ops);
            return Err(e);
        },
        Ok(()) => {},
    }
    let ghost ops2 = ops@;
    let p = m.program;
    let st = a.status(cmd.surface.buffer);
    let ghost b = ms.cache.buffer_step(cmd.surface.buffer, p, st);
    let r = cache.ensure_buffer(cmd.surface.buffer, p, st, ops);
    assert(ops@ == ops2 + b.ops);
    match r {
        Err(BindError::NotReady) => {
            assert(whole.ops == ops0 + ms.ops + b.ops);
            assert(ops@ =~= old(ops)@ + whole.ops);
            return Ok(());
        },
        Err(e) => {
            assert(whole.ops == ops0 + ms.ops + b.ops);
            assert(ops@ =~= old(ops)@ + whole.ops);
            return Err(e);
        },
        Ok(()) => {},
    }
    ops.push(DeviceOp::UploadCamera { program: p, object: cmd.object });
    ops.push(DeviceOp::CommitProgram(p));
    ops.push(DeviceOp::Draw(cmd.surface.buffer));
    ops.push(DeviceOp::UnbindBuffer(cmd.surface.buffer));
    assert(whole.ops == ops0 + ms.ops + b.ops + draw_ops(p, cmd));
    assert(ops@ =~= old(ops)@ + whole.ops);
    Ok(())
}


/// Runs the commands after `prev`, unless `prev` failed.
pub open spec fn then_commands(prev: Step, cmds: Seq<DrawCommand>, over: Option<usize>, a: &Assets, lights: LightsModel) -> Step {
    if prev.result is Err {
        prev
    } else {
        let s = commands_step(prev.cache, cmds, over, a, lights);
        Step { cache: s.cache, ops: prev.ops + s.ops, result: s.result }
    }
}

/// Submitting `x + y` is submitting `x`, then `y`.
pub proof fn lemma_commands_concat(
    c: CacheModel,
    x: Seq<DrawCommand>,
    y: Seq<DrawCommand>,
    over: Option<usize>,
    a: &Assets,
    lights: LightsModel,
)
    ensures
        commands_step(c, x + y, over, a, lights) == then_commands(commands_step(c, x, over, a, lights), y, over, a, lights),
    decreases y.len(),
{
    if y.len() == 0 {
        assert(x + y =~= x);
        let p = commands_step(c, x, over, a, lights);
        if p.result is Ok {
            assert(p.ops + Seq::<DeviceOp>::empty() =~= p.ops);
        }
    } else {
        assert((x + y).drop_last() =~= x + y.drop_last());
        assert((x + y).last() == y.last());
        lemma_commands_concat(c, x, y.drop_last(), over, a, lights);
        let p = commands_step(c, x, over, a, lights);
        if p.result is Ok {
            let q = commands_step(p.cache, y.drop_last(), over, a, lights);
            if q.result is Ok {
                let r = command_step(q.cache, y.last(), over, a, lights);
                assert(p.ops + q.ops + r.ops =~= p.ops + (q.ops + r.ops));
            }
        }
    }
}

/// Submits the commands of one bucket in order.  A command whose resources
/// are not ready is skipped; a resource that failed stops the bucket.
pub fn render_commands(
    cache: &mut BindingCache,
    q: &RenderQueueState,
    over: Option<usize>,
    a: &Assets,
    lights: &FrameLights,
    ops: &mut Vec<DeviceOp>,
) -> (r: Result<(), BindError>)
    requires
        old(cache).wf(),
        materials_known(q.commands@, over, a),
        forall|i: int| 0 <= i < q.commands@.len() ==> queue_defaults((#[trigger] q.commands@[i]).queue) == q.states,
    ensures
        final(cache).wf(),
        final(cache)@ == commands_step(old(cache)@, q.commands@, over, a, lights@).cache,
        final(ops)@ == old(ops)@ + commands_step(old(cache)@, q.commands@, over, a, lights@).ops,
        r == commands_step(old(cache)@, q.commands@, over, a, lights@).result,
{
    let cmds = &q.commands;
    let mut i: usize = 0;
    while i < cmds.len()
        invariant
            i <= cmds.len(),
            cmds == &q.commands,
            cache.wf(),
            materials_known(q.commands@, over, a),
            forall|k: int| 0 <= k < q.commands@.len() ==> queue_defaults((#[trigger] q.commands@[k]).queue) == q.states,
            commands_step(old(cache)@, cmds@.take(i as int), over, a, lights@).result is Ok,
            cache@ == commands_step(old(cache)@, cmds@.take(i as int), over, a, lights@).cache,
            ops@ == old(ops)@ + commands_step(old(cache)@, cmds@.take(i as int), over, a, lights@).ops,
        decreases cmds.len() - i,
    {
        assert(cmds@.take(i + 1).drop_last() =~= cmds@.take(i as int));
        let cmd = cmds[i];
        assert(material_of(cmds@[i as int], over) < a.materials@.len());
        let mid = match over {
            Some(m) => m,
            None => cmd.surface.material,
        };
        let mut st = DeviceState::defaults();
        st.apply(&q.states);
        st.apply(&a.materials[mid].states);
        let r = render_command(cache, cmd, &st, over, a, lights, ops);
        proof {
            let prev = commands_step(old(cache)@, cmds@.take(i as int), over, a, lights@);
            let s = command_step(prev.cache, cmd, over, a, lights@);
            assert(ops@ =~= old(ops)@ + (prev.ops + s.ops));
        }
        i += 1;
        if r.is_err() {
            proof {
                lemma_commands_stop(old(cache)@, cmds@, over, a, lights@, i as int);
            }
            return r;
        }
    }
    assert(cmds@.take(cmds.len() as int) =~= cmds@);
    Ok(())
}

/// Once a command fails, the commands after it change nothing.
proof fn lemma_commands_stop(c: CacheModel, cmds: Seq<DrawCommand>, over: Option<usize>, a: &Assets, lights: LightsModel, i: int)
    requires
        0 <= i <= cmds.len(),
        commands_step(c, cmds.take(i), over, a, lights).result is Err,
    ensures
        commands_step(c, cmds, over, a, lights) == commands_step(c, cmds.take(i), over, a, lights),
    decreases cmds.len() - i,
{
    if i < cmds.len() {
        assert(cmds.take(i + 1).drop_last() =~= cmds.take(i));
        lemma_commands_stop(c, cmds, over, a, lights, i + 1);
    } else {
        assert(cmds.take(i) =~= cmds);
    }
}

} // verus!

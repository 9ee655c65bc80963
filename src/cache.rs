//! The binding cache: which program, geometry buffer, material, light-bound
//! program and textures are bound right now, so that redundant device calls
//! can be left out.
use vstd::prelude::*;
use crate::device::DeviceOp;
use crate::scene::ResourceStatus;

verus! {

/// Number of texture units the cache hands out.
pub const TEXTURE_UNITS: usize = 8;

/// A texture unit and the texture assigned to it; `None` once that texture
/// has been freed.
#[derive(Clone, Copy, Debug, PartialEq, Eq, Structural)]
pub struct TextureSlot {
    pub unit: u32,
    pub texture: Option<u64>,
}

/// Why a resource could not be bound.
#[derive(Clone, Copy, Debug, PartialEq, Eq, Structural)]
pub enum BindError {
    /// Still loading: skip the draw, carry on with the frame.
    NotReady,
    /// Broken for good: the frame cannot go on.
    Failed(u64),
}

/// Switch counters and the last bound resources.  `slots` is in order of
/// assignment, oldest first.
pub struct BindingCache {
    pub program: Option<u64>,
    pub buffer: Option<u64>,
    pub material: Option<usize>,
    pub light_program: Option<u64>,
    pub slots: Vec<TextureSlot>,
    pub switch_prog: u64,
    pub switch_tex: u64,
    pub switch_mesh: u64,
}

pub struct CacheModel {
    pub program: Option<u64>,
    pub buffer: Option<u64>,
    pub material: Option<usize>,
    pub light_program: Option<u64>,
    pub slots: Seq<TextureSlot>,
    pub switch_prog: u64,
    pub switch_tex: u64,
    pub switch_mesh: u64,
}

impl View for BindingCache {
    type V = CacheModel;

    open spec fn view(&self) -> CacheModel {
        CacheModel {
            program: self.program,
            buffer: self.buffer,
            material: self.material,
            light_program: self.light_program,
            slots: self.slots@,
            switch_prog: self.switch_prog,
            switch_tex: self.switch_tex,
            switch_mesh: self.switch_mesh,
        }
    }
}

/// A counter one higher, stopping at the largest value.
pub open spec fn bump(n: u64) -> u64 {
    if n < u64::MAX {
        (n + 1) as u64
    } else {
        n
    }
}

fn bump_exec(n: u64) -> (r: u64)
    ensures
        r == bump(n),
{
    if n < u64::MAX {
        n + 1
    } else {
        n
    }
}

/// What a binding step leaves: the cache after it, the device operations it
/// issues and whether it succeeded.
pub struct Step {
    pub cache: CacheModel,
    pub ops: Seq<DeviceOp>,
    pub result: Result<(), BindError>,
}

pub open spec fn status_error(st: ResourceStatus, id: u64) -> BindError {
    if st == ResourceStatus::NotReady {
        BindError::NotReady
    } else {
        BindError::Failed(id)
    }
}

impl CacheModel {
    /// Units in use are distinct and numbered below the number in use, and
    /// no more than `TEXTURE_UNITS` are in use.
    pub open spec fn wf(&self) -> bool {
        &&& self.slots.len() <= TEXTURE_UNITS
        &&& forall|i: int| 0 <= i < self.slots.len() ==> (#[trigger] self.slots[i]).unit < self.slots.len()
        &&& forall|i: int, j: int|
            0 <= i < j < self.slots.len() ==> (#[trigger] self.slots[i]).unit != (#[trigger] self.slots[j]).unit
    }

    /// Binds `p` as the program unless it is already bound.
    pub open spec fn program_step(self, p: u64, st: ResourceStatus) -> Step {
        if self.program == Some(p) {
            Step { cache: self, ops: Seq::empty(), result: Ok(()) }
        } else if st == ResourceStatus::Ready {
            Step {
                cache: CacheModel { program: Some(p), switch_prog: bump(self.switch_prog), ..self },
                ops: seq![DeviceOp::BindProgram(p)],
                result: Ok(()),
            }
        } else {
            Step { cache: self, ops: Seq::empty(), result: Err(status_error(st, p)) }
        }
    }

    /// Binds geometry buffer `b` for program `p` unless it is already bound.
    pub open spec fn buffer_step(self, b: u64, p: u64, st: ResourceStatus) -> Step {
        if self.buffer == Some(b) {
            Step { cache: self, ops: Seq::empty(), result: Ok(()) }
        } else if st == ResourceStatus::Ready {
            Step {
                cache: CacheModel { buffer: Some(b), switch_mesh: bump(self.switch_mesh), ..self },
                ops: seq![DeviceOp::BindBuffer { buffer: b, program: p }],
                result: Ok(()),
            }
        } else {
            Step { cache: self, ops: Seq::empty(), result: Err(status_error(st, b)) }
        }
    }
}

/// Index of the first slot holding texture `t`, if any.
pub open spec fn slot_of(slots: Seq<TextureSlot>, t: u64) -> Option<int> {
    if exists|i: int| 0 <= i < slots.len() && (#[trigger] slots[i]).texture == Some(t) {
        Some(
            choose|i: int|
                0 <= i < slots.len() && (#[trigger] slots[i]).texture == Some(t) && forall|k: int|
                    0 <= k < i ==> (#[trigger] slots[k]).texture != Some(t),
        )
    } else {
        None
    }
}

/// The slot given up for a new texture when all units are in use: the first
/// whose texture was freed, or else the oldest.
pub open spec fn victim(slots: Seq<TextureSlot>) -> int {
    if exists|i: int| 0 <= i < slots.len() && (#[trigger] slots[i]).texture is None {
        choose|i: int|
            0 <= i < slots.len() && (#[trigger] slots[i]).texture is None && forall|k: int|
                0 <= k < i ==> (#[trigger] slots[k]).texture is Some
    } else {
        0
    }
}

/// The unit a texture that holds no unit yet is given.
pub open spec fn new_unit(slots: Seq<TextureSlot>) -> u32 {
    if slots.len() < TEXTURE_UNITS {
        slots.len() as u32
    } else {
        slots[victim(slots)].unit
    }
}

/// The slots after `t` is given its new unit, recorded as the newest.
pub open spec fn assign_unit(slots: Seq<TextureSlot>, t: u64) -> Seq<TextureSlot> {
    let kept = if slots.len() < TEXTURE_UNITS {
        slots
    } else {
        slots.remove(victim(slots))
    };
    kept.push(TextureSlot { unit: new_unit(slots), texture: Some(t) })
}

/// The unit that holds `t` after `texture_step`.
pub open spec fn unit_for(slots: Seq<TextureSlot>, t: u64) -> u32 {
    match slot_of(slots, t) {
        Some(i) => slots[i].unit,
        None => new_unit(slots),
    }
}

impl CacheModel {
    /// Makes `t` hold a unit: the one it already holds, or a new one bound
    /// on the device.
    pub open spec fn texture_step(self, t: u64, st: ResourceStatus) -> Step {
        if slot_of(self.slots, t) is Some {
            Step { cache: self, ops: Seq::empty(), result: Ok(()) }
        } else if st == ResourceStatus::Ready {
            Step {
                cache: CacheModel {
                    slots: assign_unit(self.slots, t),
                    switch_tex: bump(self.switch_tex),
                    ..self
                },
                ops: seq![DeviceOp::BindTexture { texture: t, unit: new_unit(self.slots) }],
                result: Ok(()),
            }
        } else {
            Step { cache: self, ops: Seq::empty(), result: Err(status_error(st, t)) }
        }
    }
}

impl BindingCache {
    pub open spec fn wf(&self) -> bool {
        self@.wf()
    }

    /// Nothing bound, counters at zero.
    pub fn new() -> (r: BindingCache)
        ensures
            r.wf(),
            r@.program is None,
            r@.buffer is None,
            r@.material is None,
            r@.light_program is None,
            r@.slots == Seq::<TextureSlot>::empty(),
            r@.switch_prog == 0,
            r@.switch_tex == 0,
            r@.switch_mesh == 0,
    {
        let r = BindingCache {
            program: None,
            buffer: None,
            material: None,
            light_program: None,
            slots: Vec::new(),
            switch_prog: 0,
            switch_tex: 0,
            switch_mesh: 0,
        };
        assert(r.slots@ =~= Seq::<TextureSlot>::empty());
        r
    }

    /// Binds program `p`, whose load state is `st`, unless it is the bound
    /// one.  Identity is the handle: two programs with equal contents but
    /// different handles are different.
    pub fn ensure_program(&mut self, p: u64, st: ResourceStatus, ops: &mut Vec<DeviceOp>) -> (r: Result<(), BindError>)
        requires
            old(self).wf(),
        ensures
            final(self).wf(),
            final(self)@ == old(self)@.program_step(p, st).cache,
            final(ops)@ == old(ops)@ + old(self)@.program_step(p, st).ops,
            r == old(self)@.program_step(p, st).result,
    {
        if self.program == Some(p) {
            assert(ops@ =~= old(ops)@ + Seq::<DeviceOp>::empty());
            return Ok(());
        }
        match st {
            ResourceStatus::Ready => {
                ops.push(DeviceOp::BindProgram(p));
                self.program = Some(p);
                self.switch_prog = bump_exec(self.switch_prog);
                Ok(())
            },
            ResourceStatus::NotReady => {
                assert(ops@ =~= old(ops)@ + Seq::<DeviceOp>::empty());
                Err(BindError::NotReady)
            },
            ResourceStatus::Failed => {
                assert(ops@ =~= old(ops)@ + Seq::<DeviceOp>::empty());
                Err(BindError::Failed(p))
            },
        }
    }

    /// Binds geometry buffer `b` for program `p` unless it is the bound one.
    pub fn ensure_buffer(&mut self, b: u64, p: u64, st: ResourceStatus, ops: &mut Vec<DeviceOp>) -> (r: Result<(), BindError>)
        requires
            old(self).wf(),
        ensures
            final(self).wf(),
            final(self)@ == old(self)@.buffer_step(b, p, st).cache,
            final(ops)@ == old(ops)@ + old(self)@.buffer_step(b, p, st).ops,
            r == old(self)@.buffer_step(b, p, st).result,
    {
        if self.buffer == Some(b) {
            assert(ops@ =~= old(ops)@ + Seq::<DeviceOp>::empty());
            return Ok(());
        }
        match st {
            ResourceStatus::Ready => {
                ops.push(DeviceOp::BindBuffer { buffer: b, program: p });
                self.buffer = Some(b);
                self.switch_mesh = bump_exec(self.switch_mesh);
                Ok(())
            },
            ResourceStatus::NotReady => {
                assert(ops@ =~= old(ops)@ + Seq::<DeviceOp>::empty());
                Err(BindError::NotReady)
            },
            ResourceStatus::Failed => {
                assert(ops@ =~= old(ops)@ + Seq::<DeviceOp>::empty());
                Err(BindError::Failed(b))
            },
        }
    }

    /// Gives texture `t`, whose load state is `st`, a texture unit and
    /// returns it.  A texture that holds a unit keeps it with no device call.
    /// Otherwise it gets the next unused unit while fewer than
    /// `TEXTURE_UNITS` are in use, else the unit of the first slot whose
    /// texture was freed, else the unit of the oldest slot; the texture is
    /// bound there and recorded as the newest assignment.
    pub fn ensure_texture_unit(&mut self, t: u64, st: ResourceStatus, ops: &mut Vec<DeviceOp>) -> (r: Result<u32, BindError>)
        requires
            old(self).wf(),
        ensures
            final(self).wf(),
            final(self)@ == old(self)@.texture_step(t, st).cache,
            final(ops)@ == old(ops)@ + old(self)@.texture_step(t, st).ops,
            r == match old(self)@.texture_step(t, st).result {
                Ok(()) => Ok(unit_for(old(self)@.slots, t)),
                Err(e) => Err(e),
            },
    {
        let mut i: usize = 0;
        while i < self.slots.len()
            invariant
                i <= self.slots.len(),
                self@ == old(self)@,
                self.wf(),
                forall|k: int| 0 <= k < i ==> (#[trigger] self.slots@[k]).texture != Some(t),
            decreases self.slots.len() - i,
        {
            if self.slots[i].texture == Some(t) {
                proof {
                    lemma_slot_of_first(self.slots@, t, i as int);
                }
                assert(ops@ =~= old(ops)@ + Seq::<DeviceOp>::empty());
                return Ok(self.slots[i].unit);
            }
            i += 1;
        }
        assert(slot_of(self.slots@, t) is None);
        match st {
            ResourceStatus::NotReady => {
                assert(ops@ =~= old(ops)@ + Seq::<DeviceOp>::empty());
                return Err(BindError::NotReady);
            },
            ResourceStatus::Failed => {
                assert(ops@ =~= old(ops)@ + Seq::<DeviceOp>::empty());
                return Err(BindError::Failed(t));
            },
            ResourceStatus::Ready => {},
        }
        let ghost before = self.slots@;
        let n = self.slots.len();
        let unit: u32;
        if n < TEXTURE_UNITS {
            unit = n as u32;
        } else {
            let v: usize = match first_freed(&self.slots) {
                Some(j) => {
                    proof {
                        lemma_victim_first(self.slots@, j as int);
                    }
                    j
                },
                None => 0,
            };
            assert(v == victim(before));
            unit = self.slots[v].unit;
            self.slots.remove(v);
        }
        self.slots.push(TextureSlot { unit, texture: Some(t) });
        ops.push(DeviceOp::BindTexture { texture: t, unit });
        self.switch_tex = bump_exec(self.switch_tex);
        proof {
            lemma_assign_keeps_wf(old(self)@, t);
        }
        assert(self.slots@ =~= assign_unit(before, t));
        Ok(unit)
    }
}

/// The slots once texture `t` is freed: its units hold no texture.
pub open spec fn forget(slots: Seq<TextureSlot>, t: u64) -> Seq<TextureSlot> {
    Seq::new(
        slots.len(),
        |i: int|
            if slots[i].texture == Some(t) {
                TextureSlot { unit: slots[i].unit, texture: None }
            } else {
                slots[i]
            },
    )
}

impl BindingCache {
    /// Records that texture `t` was freed: a unit that held it may be given
    /// to another texture before older assignments are evicted.
    pub fn forget_texture(&mut self, t: u64)
        requires
            old(self).wf(),
        ensures
            final(self).wf(),
            final(self)@ == (CacheModel { slots: forget(old(self)@.slots, t), ..old(self)@ }),
    {
        let n = self.slots.len();
        let mut i: usize = 0;
        while i < n
            invariant
                i <= n,
                n == self.slots.len(),
                n == old(self).slots@.len(),
                self.program == old(self).program,
                self.buffer == old(self).buffer,
                self.material == old(self).material,
                self.light_program == old(self).light_program,
                self.switch_prog == old(self).switch_prog,
                self.switch_tex == old(self).switch_tex,
                self.switch_mesh == old(self).switch_mesh,
                forall|k: int| 0 <= k < i ==> self.slots@[k] == #[trigger] forget(old(self).slots@, t)[k],
                forall|k: int| i <= k < n ==> self.slots@[k] == #[trigger] old(self).slots@[k],
            decreases n - i,
        {
            let slot = self.slots[i];
            if slot.texture == Some(t) {
                self.slots.set(i, TextureSlot { unit: slot.unit, texture: None });
            }
            i += 1;
        }
        assert(self.slots@ =~= forget(old(self).slots@, t));
        assert(forall|k: int| 0 <= k < n ==> (#[trigger] self.slots@[k]).unit == old(self).slots@[k].unit);
    }
}

/// Index of the first slot whose texture was freed.
fn first_freed(slots: &Vec<TextureSlot>) -> (r: Option<usize>)
    ensures
        match r {
            Some(j) => j < slots.len() && slots@[j as int].texture is None && forall|k: int|
                0 <= k < j ==> (#[trigger] slots@[k]).texture is Some,
            None => forall|k: int| 0 <= k < slots.len() ==> (#[trigger] slots@[k]).texture is Some,
        },
{
    let mut j: usize = 0;
    while j < slots.len()
        invariant
            j <= slots.len(),
            forall|k: int| 0 <= k < j ==> (#[trigger] slots@[k]).texture is Some,
        decreases slots.len() - j,
    {
        if slots[j].texture.is_none() {
            return Some(j);
        }
        j += 1;
    }
    None
}

/// The first slot holding `t` is what `slot_of` names.
proof fn lemma_slot_of_first(slots: Seq<TextureSlot>, t: u64, i: int)
    requires
        0 <= i < slots.len(),
        slots[i].texture == Some(t),
        forall|k: int| 0 <= k < i ==> (#[trigger] slots[k]).texture != Some(t),
    ensures
        slot_of(slots, t) == Some(i),
{
    assert(exists|x: int| 0 <= x < slots.len() && (#[trigger] slots[x]).texture == Some(t));
    let w = slot_of(slots, t).unwrap();
    if w < i {
    } else if w > i {
        assert(slots[i].texture != Some(t));
    }
}

/// The first slot whose texture was freed is the victim.
proof fn lemma_victim_first(slots: Seq<TextureSlot>, i: int)
    requires
        0 <= i < slots.len(),
        slots[i].texture is None,
        forall|k: int| 0 <= k < i ==> (#[trigger] slots[k]).texture is Some,
    ensures
        victim(slots) == i,
{
    assert(exists|x: int| 0 <= x < slots.len() && (#[trigger] slots[x]).texture is None);
    let w = victim(slots);
    if w < i {
    } else if w > i {
        assert(slots[i].texture is Some);
    }
}

/// The victim is a slot that exists.
proof fn lemma_victim_in_range(slots: Seq<TextureSlot>)
    requires
        slots.len() > 0,
    ensures
        0 <= victim(slots) < slots.len(),
{
    if exists|i: int| 0 <= i < slots.len() && (#[trigger] slots[i]).texture is None {
        let i = choose|i: int| 0 <= i < slots.len() && (#[trigger] slots[i]).texture is None;
        lemma_first_none(slots, i);
    }
}

/// Where some slot was freed, there is a first such slot.
proof fn lemma_first_none(slots: Seq<TextureSlot>, i: int)
    requires
        0 <= i < slots.len(),
        slots[i].texture is None,
    ensures
        exists|x: int|
            0 <= x < slots.len() && (#[trigger] slots[x]).texture is None && forall|k: int|
                0 <= k < x ==> (#[trigger] slots[k]).texture is Some,
    decreases i,
{
    if exists|k: int| 0 <= k < i && (#[trigger] slots[k]).texture is None {
        let k = choose|k: int| 0 <= k < i && (#[trigger] slots[k]).texture is None;
        lemma_first_none(slots, k);
    } else {
        assert(0 <= i < slots.len() && slots[i].texture is None && forall|k: int|
            0 <= k < i ==> (#[trigger] slots[k]).texture is Some);
    }
}

/// Assigning a new unit keeps the units distinct and in range.
proof fn lemma_assign_keeps_wf(c: CacheModel, t: u64)
    requires
        c.wf(),
    ensures
        (CacheModel { slots: assign_unit(c.slots, t), ..c }).wf(),
{
    let s = c.slots;
    let r = assign_unit(s, t);
    if s.len() < TEXTURE_UNITS {
        assert(r.len() == s.len() + 1);
        assert forall|i: int, j: int| 0 <= i < j < r.len() implies (#[trigger] r[i]).unit != (#[trigger] r[j]).unit by {
            if j == s.len() {
                assert(r[i] == s[i]);
            } else {
                assert(r[i] == s[i] && r[j] == s[j]);
            }
        }
        assert forall|i: int| 0 <= i < r.len() implies (#[trigger] r[i]).unit < r.len() by {
            if i < s.len() {
                assert(r[i] == s[i]);
            }
        }
    } else {
        lemma_victim_in_range(s);
        let v = victim(s);
        let kept = s.remove(v);
        assert(r == kept.push(TextureSlot { unit: s[v].unit, texture: Some(t) }));
        assert(r.len() == s.len());
        assert forall|i: int| 0 <= i < kept.len() implies #[trigger] kept[i] == (if i < v { s[i] } else { s[i + 1] }) by {}
        assert forall|i: int, j: int| 0 <= i < j < r.len() implies (#[trigger] r[i]).unit != (#[trigger] r[j]).unit by {
            let si = if i < v { i } else { i + 1 };
            assert(r[i] == kept[i]);
            assert(kept[i] == s[si]);
            if j == kept.len() {
                assert(si != v);
                if si < v {
                    assert(s[si].unit != s[v].unit);
                } else {
                    assert(s[v].unit != s[si].unit);
                }
            } else {
                let sj = if j < v { j } else { j + 1 };
                assert(r[j] == kept[j]);
                assert(kept[j] == s[sj]);
                assert(si < sj);
            }
        }
        assert forall|i: int| 0 <= i < r.len() implies (#[trigger] r[i]).unit < r.len() by {
            if i < kept.len() {
                let si = if i < v { i } else { i + 1 };
                assert(r[i] == kept[i]);
                assert(kept[i] == s[si]);
            }
        }
    }
}

/// Two consecutive binds of the same program switch programs once; of two
/// different programs, twice.
pub proof fn lemma_program_switches(c: CacheModel, p: u64, other: u64)
    requires
        c.program != Some(p),
        c.switch_prog < u64::MAX - 1,
    ensures
        c.program_step(p, ResourceStatus::Ready).cache.program_step(p, ResourceStatus::Ready).cache.switch_prog
            == c.switch_prog + 1,
        other != p ==> c.program_step(p, ResourceStatus::Ready).cache.program_step(
            other,
            ResourceStatus::Ready,
        ).cache.switch_prog == c.switch_prog + 2,
{
}

/// Asking twice in a row for the same texture gives the same unit, and only
/// the first request may bind it on the device.
pub proof fn lemma_texture_unit_stable(c: CacheModel, t: u64, st: ResourceStatus, st2: ResourceStatus)
    requires
        c.wf(),
        c.texture_step(t, st).result is Ok,
    ensures
        ({
            let first = c.texture_step(t, st);
            let second = first.cache.texture_step(t, st2);
            &&& second.result is Ok
            &&& second.ops.len() == 0
            &&& second.cache == first.cache
            &&& unit_for(first.cache.slots, t) == unit_for(c.slots, t)
            &&& first.ops.len() <= 1
        }),
{
    let s = c.slots;
    if slot_of(s, t) is None {
        let r = assign_unit(s, t);
        let kept = if s.len() < TEXTURE_UNITS {
            s
        } else {
            s.remove(victim(s))
        };
        if s.len() >= TEXTURE_UNITS {
            lemma_victim_in_range(s);
        }
        assert forall|k: int| 0 <= k < kept.len() implies (#[trigger] kept[k]).texture != Some(t) by {
            if s.len() >= TEXTURE_UNITS {
                let v = victim(s);
                if k < v {
                    assert(kept[k] == s[k]);
                } else {
                    assert(kept[k] == s[k + 1]);
                }
            }
        }
        assert forall|k: int| 0 <= k < r.len() - 1 implies (#[trigger] r[k]).texture != Some(t) by {
            assert(r[k] == kept[k]);
        }
        lemma_slot_of_first(r, t, r.len() - 1);
    }
}

/// With every unit in use by a live texture, a new texture takes the unit
/// of the oldest assignment, which leaves the front of the queue.
pub proof fn lemma_full_cache_evicts_oldest(c: CacheModel, t: u64)
    requires
        c.wf(),
        c.slots.len() == TEXTURE_UNITS,
        forall|i: int| 0 <= i < c.slots.len() ==> (#[trigger] c.slots[i]).texture is Some,
        slot_of(c.slots, t) is None,
    ensures
        c.texture_step(t, ResourceStatus::Ready).ops == seq![
            DeviceOp::BindTexture { texture: t, unit: c.slots[0].unit },
        ],
        c.texture_step(t, ResourceStatus::Ready).cache.slots == c.slots.subrange(1, c.slots.len() as int).push(
            TextureSlot { unit: c.slots[0].unit, texture: Some(t) },
        ),
{
    assert(victim(c.slots) == 0);
    assert(c.slots.remove(0) =~= c.slots.subrange(1, c.slots.len() as int));
}

} // verus!

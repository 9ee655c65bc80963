//! Render queues: the four buckets of draw commands of a frame, their default
//! device state, and their ordering by distance from the camera.
use vstd::prelude::*;
use crate::scene::{ObjectRef, Surface};

verus! {

broadcast use vstd::seq_lib::group_to_multiset_ensures;

/// The render queues.  Their declaration order is the submission order of
/// every frame.
#[derive(Clone, Copy, Debug, PartialEq, Eq, Structural)]
pub enum RenderQueue {
    Opaque,
    Skybox,
    Transparent,
    UI,
}

impl RenderQueue {
    /// Position of the queue in the submission order.
    pub open spec fn rank(self) -> nat {
        match self {
            RenderQueue::Opaque => 0,
            RenderQueue::Skybox => 1,
            RenderQueue::Transparent => 2,
            RenderQueue::UI => 3,
        }
    }
}

/// Depth comparison used by the depth test.
#[derive(Clone, Copy, Debug, PartialEq, Eq, Structural)]
pub enum DepthTest {
    Never,
    Less,
    Equal,
    LessEqual,
    Greater,
    NotEqual,
    GreaterEqual,
    Always,
}

/// A partial override of the device state: `None` leaves a setting as it is.
#[derive(Clone, Copy, Debug, PartialEq, Eq, Structural)]
pub struct MaterialState {
    pub depth_write: Option<bool>,
    pub depth_test: Option<DepthTest>,
}

/// The device state committed before a draw.
#[derive(Clone, Copy, Debug, PartialEq, Eq, Structural)]
pub struct DeviceState {
    pub depth_write: bool,
    pub depth_test: DepthTest,
}

pub open spec fn default_device_state() -> DeviceState {
    DeviceState { depth_write: true, depth_test: DepthTest::Less }
}

impl DeviceState {
    /// The state with the settings that `o` overrides replaced.
    pub open spec fn overlay(self, o: MaterialState) -> DeviceState {
        DeviceState {
            depth_write: match o.depth_write {
                Some(w) => w,
                None => self.depth_write,
            },
            depth_test: match o.depth_test {
                Some(t) => t,
                None => self.depth_test,
            },
        }
    }

    pub fn defaults() -> (r: DeviceState)
        ensures
            r == default_device_state(),
    {
        DeviceState { depth_write: true, depth_test: DepthTest::Less }
    }

    pub fn apply(&mut self, o: &MaterialState)
        ensures
            *final(self) == old(self).overlay(*o),
    {
        if let Some(w) = o.depth_write {
            self.depth_write = w;
        }
        if let Some(t) = o.depth_test {
            self.depth_test = t;
        }
    }
}

/// The state of a draw: the defaults, then the queue's overrides, then the
/// material's.
pub open spec fn merged_state(queue: MaterialState, material: MaterialState) -> DeviceState {
    default_device_state().overlay(queue).overlay(material)
}

/// Default state overrides of each queue: the skybox and transparent queues
/// do not write depth, and the skybox passes the depth test at the far plane.
pub open spec fn queue_defaults(k: RenderQueue) -> MaterialState {
    match k {
        RenderQueue::Skybox => MaterialState {
            depth_write: Some(false),
            depth_test: Some(DepthTest::LessEqual),
        },
        RenderQueue::Transparent => MaterialState { depth_write: Some(false), depth_test: None },
        _ => MaterialState { depth_write: None, depth_test: None },
    }
}

/// One draw of one surface of one object in the current frame, with the
/// squared distance from the camera eye to the object.
#[derive(Clone, Copy, Debug, PartialEq, Eq, Structural)]
pub struct DrawCommand {
    pub object: ObjectRef,
    pub surface: Surface,
    pub queue: RenderQueue,
    pub cam_distance: u128,
}

/// `a` may come before `b`: nearer first, or farther first when `descending`.
pub open spec fn in_order(a: u128, b: u128, descending: bool) -> bool {
    if descending {
        a >= b
    } else {
        a <= b
    }
}

/// The commands are ordered by camera distance.
pub open spec fn sorted_by_distance(s: Seq<DrawCommand>, descending: bool) -> bool {
    forall|i: int, j: int|
        0 <= i < j < s.len() ==> in_order(#[trigger] s[i].cam_distance, #[trigger] s[j].cam_distance, descending)
}

fn out_of_order(a: u128, b: u128, descending: bool) -> (r: bool)
    ensures
        r == !in_order(a, b, descending),
{
    if descending {
        a < b
    } else {
        a > b
    }
}

/// Sorts by camera distance; a sequence that is already sorted is left as it
/// is.
fn sort_commands(v: &mut Vec<DrawCommand>, descending: bool)
    ensures
        sorted_by_distance(final(v)@, descending),
        final(v)@.to_multiset() == old(v)@.to_multiset(),
        sorted_by_distance(old(v)@, descending) ==> final(v)@ == old(v)@,
{
    let ghost orig = v@;
    let n = v.len();
    if n == 0 {
        return;
    }
    let mut i: usize = 1;
    while i < n
        invariant
            1 <= i <= n,
            v.len() == n,
            orig.len() == n,
            sorted_by_distance(v@.take(i as int), descending),
            v@.to_multiset() == orig.to_multiset(),
            sorted_by_distance(orig, descending) ==> v@ == orig,
        decreases n - i,
    {
        let mut j: usize = i;
        assert forall|a: int, b: int| 0 <= a < b < j implies in_order(
            #[trigger] v@[a].cam_distance,
            #[trigger] v@[b].cam_distance,
            descending,
        ) by {
            assert(v@.take(i as int)[a] == v@[a] && v@.take(i as int)[b] == v@[b]);
        }
        while j > 0 && out_of_order(v[j - 1].cam_distance, v[j].cam_distance, descending)
            invariant
                0 <= j <= i < n,
                v.len() == n,
                forall|a: int, b: int|
                    0 <= a < b < j ==> in_order(#[trigger] v@[a].cam_distance, #[trigger] v@[b].cam_distance, descending),
                forall|a: int, b: int|
                    j <= a < b <= i ==> in_order(#[trigger] v@[a].cam_distance, #[trigger] v@[b].cam_distance, descending),
                forall|a: int, b: int|
                    0 <= a < j && j < b <= i ==> in_order(#[trigger] v@[a].cam_distance, #[trigger] v@[b].cam_distance, descending),
                v@.to_multiset() == orig.to_multiset(),
                sorted_by_distance(orig, descending) ==> (v@ == orig && j == i),
            decreases j,
        {
            let a = v[j - 1];
            let b = v[j];
            let ghost before = v@;
            v.set(j - 1, b);
            v.set(j, a);
            proof {
                let mid = before.update(j - 1, b);
                assert(mid.to_multiset() == before.to_multiset().insert(b).remove(a));
                assert(v@ == mid.update(j as int, a));
                assert(v@.to_multiset() == mid.to_multiset().insert(a).remove(mid[j as int]));
                assert(before.to_multiset().count(a) > 0) by {
                    assert(before[j - 1] == a);
                }
                assert(v@.to_multiset() =~= before.to_multiset()) by {
                    broadcast use vstd::multiset::group_multiset_axioms;
                }
            }
            j -= 1;
        }
        proof {
            assert forall|a: int, b: int| 0 <= a < b < i + 1 implies in_order(
                #[trigger] v@.take(i + 1)[a].cam_distance,
                #[trigger] v@.take(i + 1)[b].cam_distance,
                descending,
            ) by {
                if a < j && b > j {
                } else if a < j && b == j {
                    if a < j - 1 {
                        assert(in_order(v@[a].cam_distance, v@[j - 1].cam_distance, descending));
                    }
                } else {
                }
            }
        }
        i += 1;
    }
    assert(v@.take(n as int) =~= v@);
}

/// A bucket of draw commands with the queue's default device state.
pub struct RenderQueueState {
    pub states: MaterialState,
    pub commands: Vec<DrawCommand>,
}

impl RenderQueueState {
    pub fn new(states: MaterialState) -> (r: RenderQueueState)
        ensures
            r.states == states,
            r.commands@ == Seq::<DrawCommand>::empty(),
    {
        RenderQueueState { states, commands: Vec::new() }
    }

    /// Back to front: farthest first, as blending needs.
    pub fn sort_by_cam_distance(&mut self)
        ensures
            final(self).states == old(self).states,
            sorted_by_distance(final(self).commands@, true),
            final(self).commands@.to_multiset() == old(self).commands@.to_multiset(),
            sorted_by_distance(old(self).commands@, true) ==> final(self).commands@ == old(self).commands@,
    {
        sort_commands(&mut self.commands, true);
    }

    /// Front to back: nearest first, so that the depth test rejects hidden
    /// fragments early.
    pub fn sort_by_cam_distance_reverse(&mut self)
        ensures
            final(self).states == old(self).states,
            sorted_by_distance(final(self).commands@, false),
            final(self).commands@.to_multiset() == old(self).commands@.to_multiset(),
            sorted_by_distance(old(self).commands@, false) ==> final(self).commands@ == old(self).commands@,
    {
        sort_commands(&mut self.commands, false);
    }
}

/// `a + b`, or `usize::MAX` if that is more.
fn sat_add(a: usize, b: usize) -> (r: usize)
    ensures
        r == if a + b <= usize::MAX {
            a + b
        } else {
            usize::MAX as int
        },
{
    if a > usize::MAX - b {
        usize::MAX
    } else {
        a + b
    }
}

/// The four buckets of a frame, one per render queue.
pub struct RenderQueueList {
    pub opaque: RenderQueueState,
    pub skybox: RenderQueueState,
    pub transparent: RenderQueueState,
    pub ui: RenderQueueState,
}

/// Every command of the bucket belongs to the queue `k`.
pub open spec fn all_in_queue(s: Seq<DrawCommand>, k: RenderQueue) -> bool {
    forall|i: int| 0 <= i < s.len() ==> (#[trigger] s[i]).queue == k
}

impl RenderQueueList {
    pub open spec fn bucket(&self, k: RenderQueue) -> Seq<DrawCommand> {
        match k {
            RenderQueue::Opaque => self.opaque.commands@,
            RenderQueue::Skybox => self.skybox.commands@,
            RenderQueue::Transparent => self.transparent.commands@,
            RenderQueue::UI => self.ui.commands@,
        }
    }

    /// Each bucket holds the default state of its queue and only commands
    /// whose material renders in that queue.
    pub open spec fn wf(&self) -> bool {
        &&& self.opaque.states == queue_defaults(RenderQueue::Opaque)
        &&& self.skybox.states == queue_defaults(RenderQueue::Skybox)
        &&& self.transparent.states == queue_defaults(RenderQueue::Transparent)
        &&& self.ui.states == queue_defaults(RenderQueue::UI)
        &&& all_in_queue(self.opaque.commands@, RenderQueue::Opaque)
        &&& all_in_queue(self.skybox.commands@, RenderQueue::Skybox)
        &&& all_in_queue(self.transparent.commands@, RenderQueue::Transparent)
        &&& all_in_queue(self.ui.commands@, RenderQueue::UI)
    }

    /// All commands in the order in which they are submitted: opaque,
    /// skybox, transparent, then UI.
    pub open spec fn submission_order(&self) -> Seq<DrawCommand> {
        self.opaque.commands@ + self.skybox.commands@ + self.transparent.commands@
            + self.ui.commands@
    }

    pub open spec fn total_spec(&self) -> nat {
        self.submission_order().len()
    }

    /// Four empty buckets with their queues' default states.
    pub fn new() -> (r: RenderQueueList)
        ensures
            r.wf(),
            forall|k: RenderQueue| r.bucket(k) == Seq::<DrawCommand>::empty(),
    {
        let opaque = RenderQueueState::new(MaterialState { depth_write: None, depth_test: None });
        let skybox = RenderQueueState::new(
            MaterialState { depth_write: Some(false), depth_test: Some(DepthTest::LessEqual) },
        );
        let transparent = RenderQueueState::new(
            MaterialState { depth_write: Some(false), depth_test: None },
        );
        let ui = RenderQueueState::new(MaterialState { depth_write: None, depth_test: None });
        RenderQueueList { opaque, skybox, transparent, ui }
    }

    /// Appends the command to the bucket of its own queue.
    pub fn push(&mut self, cmd: DrawCommand)
        requires
            old(self).wf(),
        ensures
            final(self).wf(),
            forall|k: RenderQueue|
                #[trigger] final(self).bucket(k) == if k == cmd.queue {
                    old(self).bucket(k).push(cmd)
                } else {
                    old(self).bucket(k)
                },
    {
        match cmd.queue {
            RenderQueue::Opaque => self.opaque.commands.push(cmd),
            RenderQueue::Skybox => self.skybox.commands.push(cmd),
            RenderQueue::Transparent => self.transparent.commands.push(cmd),
            RenderQueue::UI => self.ui.commands.push(cmd),
        }
    }

    /// Number of commands over all buckets, or `usize::MAX` if that is
    /// more.
    pub fn surface_count(&self) -> (n: usize)
        ensures
            n == if self.total_spec() <= usize::MAX {
                self.total_spec()
            } else {
                usize::MAX as nat
            },
    {
        let n = sat_add(self.opaque.commands.len(), self.skybox.commands.len());
        let n = sat_add(n, self.transparent.commands.len());
        sat_add(n, self.ui.commands.len())
    }

    /// Orders the opaque bucket front to back and the transparent bucket
    /// back to front; the skybox and UI buckets keep the order of gathering.
    pub fn sort(&mut self)
        requires
            old(self).wf(),
        ensures
            final(self).wf(),
            sorts_to(old(self).opaque.commands@, final(self).opaque.commands@, false),
            sorts_to(old(self).transparent.commands@, final(self).transparent.commands@, true),
            final(self).skybox.commands@ == old(self).skybox.commands@,
            final(self).ui.commands@ == old(self).ui.commands@,
    {
        self.opaque.sort_by_cam_distance_reverse();
        self.transparent.sort_by_cam_distance();
        proof {
            lemma_multiset_keeps_queue(old(self).opaque.commands@, self.opaque.commands@, RenderQueue::Opaque);
            lemma_multiset_keeps_queue(
                old(self).transparent.commands@,
                self.transparent.commands@,
                RenderQueue::Transparent,
            );
        }
    }
}

/// A permutation of a bucket stays within the bucket's queue.
proof fn lemma_multiset_keeps_queue(a: Seq<DrawCommand>, b: Seq<DrawCommand>, k: RenderQueue)
    requires
        all_in_queue(a, k),
        a.to_multiset() == b.to_multiset(),
    ensures
        all_in_queue(b, k),
{
    assert forall|i: int| 0 <= i < b.len() implies (#[trigger] b[i]).queue == k by {
        assert(b.to_multiset().count(b[i]) > 0);
        assert(a.contains(b[i]));
    }
}

/// Whatever order the commands were gathered in, the submission order runs
/// through the queues in their fixed order: opaque, skybox, transparent, UI.
pub proof fn lemma_submission_follows_queue_order(q: &RenderQueueList)
    requires
        q.wf(),
    ensures
        forall|i: int, j: int|
            0 <= i < j < q.submission_order().len() ==> (#[trigger] q.submission_order()[i]).queue.rank()
                <= (#[trigger] q.submission_order()[j]).queue.rank(),
{
    let o = q.opaque.commands@;
    let s = q.skybox.commands@;
    let t = q.transparent.commands@;
    let u = q.ui.commands@;
    let all = q.submission_order();
    assert forall|i: int| 0 <= i < all.len() implies (#[trigger] all[i]).queue.rank() == (if i < o.len() {
        0int
    } else if i < o.len() + s.len() {
        1int
    } else if i < o.len() + s.len() + t.len() {
        2int
    } else {
        3int
    }) by {
        if i < o.len() {
            assert(all[i] == o[i]);
        } else if i < o.len() + s.len() {
            assert(all[i] == s[i - o.len()]);
        } else if i < o.len() + s.len() + t.len() {
            assert(all[i] == t[i - o.len() - s.len()]);
        } else {
            assert(all[i] == u[i - o.len() - s.len() - t.len()]);
        }
    }
}

/// In submission order, opaque commands come nearest first and transparent
/// commands farthest first, once the list is sorted.
pub proof fn lemma_submission_distance_order(q: &RenderQueueList)
    requires
        q.wf(),
        sorted_by_distance(q.opaque.commands@, false),
        sorted_by_distance(q.transparent.commands@, true),
    ensures
        forall|i: int, j: int|
            0 <= i < j < q.submission_order().len() && (#[trigger] q.submission_order()[i]).queue
                == RenderQueue::Opaque && (#[trigger] q.submission_order()[j]).queue == RenderQueue::Opaque
                ==> q.submission_order()[i].cam_distance <= q.submission_order()[j].cam_distance,
        forall|i: int, j: int|
            0 <= i < j < q.submission_order().len() && (#[trigger] q.submission_order()[i]).queue
                == RenderQueue::Transparent && (#[trigger] q.submission_order()[j]).queue
                == RenderQueue::Transparent ==> q.submission_order()[i].cam_distance
                >= q.submission_order()[j].cam_distance,
{
    let o = q.opaque.commands@;
    let s = q.skybox.commands@;
    let t = q.transparent.commands@;
    let u = q.ui.commands@;
    let all = q.submission_order();
    let a = o.len() as int;
    let b = a + s.len();
    let c = b + t.len();
    assert forall|i: int| 0 <= i < all.len() implies (#[trigger] all[i]) == (if i < a {
        o[i]
    } else if i < b {
        s[i - a]
    } else if i < c {
        t[i - b]
    } else {
        u[i - c]
    }) by {}
    assert forall|i: int| 0 <= i < all.len() && (#[trigger] all[i]).queue == RenderQueue::Opaque implies i < a by {
        if a <= i < b {
            assert(s[i - a].queue == RenderQueue::Skybox);
        } else if b <= i < c {
            assert(t[i - b].queue == RenderQueue::Transparent);
        } else if c <= i {
            assert(u[i - c].queue == RenderQueue::UI);
        }
    }
    assert forall|i: int| 0 <= i < all.len() && (#[trigger] all[i]).queue == RenderQueue::Transparent implies b
        <= i < c by {
        if i < a {
            assert(o[i].queue == RenderQueue::Opaque);
        } else if a <= i < b {
            assert(s[i - a].queue == RenderQueue::Skybox);
        } else if c <= i {
            assert(u[i - c].queue == RenderQueue::UI);
        }
    }
}

/// What a sort by camera distance promises: `after` is ordered, holds the
/// same commands as `before`, and equals it when `before` was ordered.
pub open spec fn sorts_to(before: Seq<DrawCommand>, after: Seq<DrawCommand>, descending: bool) -> bool {
    &&& sorted_by_distance(after, descending)
    &&& after.to_multiset() == before.to_multiset()
    &&& sorted_by_distance(before, descending) ==> after == before
}

/// Sorting a bucket a second time leaves the order of the first sort as it
/// is.
pub proof fn lemma_sort_twice(s0: Seq<DrawCommand>, s1: Seq<DrawCommand>, s2: Seq<DrawCommand>, descending: bool)
    requires
        sorts_to(s0, s1, descending),
        sorts_to(s1, s2, descending),
    ensures
        s2 == s1,
{
}

} // verus!

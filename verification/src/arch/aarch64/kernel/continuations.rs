//! Continuations: units with a stack and an exception slot of their own, which
//! give up the core when they park and go on where they parked when they are
//! resumed.

use vstd::prelude::*;

use crate::arch::aarch64::kernel::interrupts::ids::SGI_CONT_WAKE;
use crate::arch::aarch64::kernel::scheduler::INITIAL_SPSR;
use crate::memory::{Memory, FRAME_BYTES, FRAME_WORDS};

verus! {

/// Where a continuation is in its life.
#[derive(Copy, Clone, Debug, Eq, PartialEq, Structural)]
pub enum ContState {
    /// Not in use.
    Free,
    /// It can be resumed.
    Ready,
    /// It was resumed.
    Running,
    /// It gave up the core.
    Parked,
}

/// The thread pointer that a continuation starts with.
pub const CONT_TLS_MAGIC: u64 = 0xC0DE_C7E7;

/// Where the stacks and the exception slots of continuations lie, and how large
/// they are.
#[derive(Copy, Clone, Debug, Eq, PartialEq, Structural)]
pub struct ContLayout {
    /// Where the stacks begin.
    pub stacks: u64,
    /// Where the exception slots begin.
    pub slots: u64,
    /// Size of a stack.
    pub stack_size: u64,
    /// Size of the guard above a stack.
    pub stack_guard: u64,
    /// Size of an exception slot.
    pub slot_size: u64,
    /// Size of the guard above an exception slot.
    pub slot_guard: u64,
    /// Number of continuations per core.
    pub max: u64,
}

/// Top of element `i` of the core's part of a section: each core has `max`
/// elements, and each of them a guard.
pub open spec fn element_top(
    base: int,
    size: int,
    guard: int,
    max: int,
    core: int,
    i: int,
) -> int {
    base + (core * max + i) * (size + guard) + size
}

impl ContLayout {
    /// Top of the stack of continuation `i` of the core.
    pub open spec fn stack_top(&self, core: int, i: int) -> int {
        element_top(
            self.stacks as int,
            self.stack_size as int,
            self.stack_guard as int,
            self.max as int,
            core,
            i,
        )
    }

    /// Top of the exception slot of continuation `i` of the core.
    pub open spec fn slot_top(&self, core: int, i: int) -> int {
        element_top(
            self.slots as int,
            self.slot_size as int,
            self.slot_guard as int,
            self.max as int,
            core,
            i,
        )
    }

    /// Whether the core's continuations have their place: a stack holds at
    /// least a frame, and no address overflows.
    pub open spec fn fits(&self, core: int) -> bool {
        &&& self.stack_size >= FRAME_BYTES
        &&& forall|i: int| 0 <= i < self.max ==> #[trigger] self.stack_top(core, i) <= u64::MAX
        &&& forall|i: int| 0 <= i < self.max ==> #[trigger] self.slot_top(core, i) <= u64::MAX
    }
}

fn top(base: u64, size: u64, guard: u64, max: u64, core: u64, i: u64) -> (r: u64)
    requires
        i < max,
        element_top(
            base as int,
            size as int,
            guard as int,
            max as int,
            core as int,
            i as int,
        ) <= u64::MAX,
    ensures
        r == element_top(
            base as int,
            size as int,
            guard as int,
            max as int,
            core as int,
            i as int,
        ),
{
    assert(0 <= core * max <= 0xffff_ffff_ffff_fffe_0000_0000_0000_0001) by (nonlinear_arith)
        requires
            0 <= core <= 0xffff_ffff_ffff_ffff,
            0 <= max <= 0xffff_ffff_ffff_ffff,
    ;
    let elem: u128 = size as u128 + guard as u128;
    let n: u128 = core as u128 * max as u128 + i as u128;
    assert(n * elem >= 0) by (nonlinear_arith);
    assert(n * elem == (core * max + i) * (size + guard));
    (base as u128 + n * elem + size as u128) as u64
}

/// Top of the stack of continuation `i` of the core.
pub fn cont_stack_top(layout: &ContLayout, core: u64, i: u64) -> (r: u64)
    requires
        layout.fits(core as int),
        i < layout.max,
    ensures
        r == layout.stack_top(core as int, i as int),
{
    assert(layout.stack_top(core as int, i as int) <= u64::MAX);
    top(layout.stacks, layout.stack_size, layout.stack_guard, layout.max, core, i)
}

/// Top of the exception slot of continuation `i` of the core.
pub fn cont_slot_top(layout: &ContLayout, core: u64, i: u64) -> (r: u64)
    requires
        layout.fits(core as int),
        i < layout.max,
    ensures
        r == layout.slot_top(core as int, i as int),
{
    assert(layout.slot_top(core as int, i as int) <= u64::MAX);
    top(layout.slots, layout.slot_size, layout.slot_guard, layout.max, core, i)
}

/// A continuation.
#[derive(Copy, Clone, Debug, Eq, PartialEq, Structural)]
pub struct Cont {
    /// Where its register frame lies, on its own stack.
    pub state_frame: u64,
    /// Top of its exception slot.
    pub slot_top: u64,
    /// Its thread pointer.
    pub tls: u64,
    /// Where it is in its life.
    pub state: ContState,
    /// Whether it was woken before it could be resumed.
    pub pending_wake: bool,
    /// Where it begins.
    pub entry: u64,
    /// The frame of whoever resumed it.
    pub resumer_frame: u64,
    /// The exception slot of whoever resumed it.
    pub resumer_slot: u64,
}

/// From which frame to which frame, with which exception slot, the core
/// switches.
#[derive(Copy, Clone, Debug, Eq, PartialEq, Structural)]
pub struct ContSwitch {
    /// The frame that takes what is running.
    pub save: u64,
    /// The frame that goes on.
    pub target: u64,
    /// The exception slot for what goes on.
    pub target_slot: u64,
    /// The frame that is current afterwards.
    pub cur: u64,
}

/// What came of parking.
#[derive(Copy, Clone, Debug, Eq, PartialEq, Structural)]
pub enum Parked {
    /// The continuation was woken before, and goes on.
    Woken,
    /// The core switches; the interrupt that wakes the continuation is sent
    /// first if it asked for that.
    Switch { switch: ContSwitch, sgi: Option<u64> },
}

/// The continuations of a core.
pub struct Continuations {
    /// Those that were started, in order.
    pub conts: Vec<Cont>,
    /// The one that runs.
    pub current: Option<usize>,
    /// The one that waits to be woken or resumed.
    pub pending: Option<usize>,
    /// Whether the trial was started.
    pub spawned: bool,
    /// How often the trial was resumed.
    pub resumes: u32,
}

/// What the continuations of a core are in.
#[verifier::ext_equal]
pub struct ContView {
    pub conts: Seq<Cont>,
    pub current: Option<usize>,
    pub pending: Option<usize>,
}

/// Word `w` of the frame that a continuation starts from.
pub open spec fn cont_word(entry: u64, tls: u64, stack_top: int, w: int) -> u64 {
    if w == 1 {
        entry
    } else if w == 2 {
        INITIAL_SPSR
    } else if w == 3 {
        (stack_top - 16) as u64
    } else if w == 4 {
        tls
    } else {
        0
    }
}

/// Whether `after` is `before` with the first frame of a continuation at the
/// top of its stack.
pub open spec fn frame_built(
    before: Map<u64, u64>,
    after: Map<u64, u64>,
    entry: u64,
    tls: u64,
    stack_top: int,
) -> bool {
    let frame = stack_top - FRAME_BYTES;
    &&& after.dom() == before.dom()
    &&& forall|w: int|
        0 <= w < FRAME_WORDS ==> after[#[trigger] crate::memory::word_at(frame, w)] == cont_word(
            entry,
            tls,
            stack_top,
            w,
        )
    &&& forall|a: u64| a < frame || a >= stack_top ==> #[trigger] after[a] == before[a]
}

/// Builds the frame that a continuation starts from at the top of its stack:
/// exception level 1 with the stack pointer of level 0, interrupts kept out.
fn build_frame(memory: &mut Memory, stack_top: u64, entry: u64, tls: u64) -> (r: u64)
    requires
        old(memory).wf(),
        stack_top >= FRAME_BYTES,
        crate::memory::frame_mapped(old(memory)@, stack_top - FRAME_BYTES),
    ensures
        final(memory).wf(),
        r == stack_top - FRAME_BYTES,
        frame_built(old(memory)@, final(memory)@, entry, tls, stack_top as int),
{
    let frame: u64 = stack_top - FRAME_BYTES;
    let ghost start = memory@;
    let mut i: u64 = 0;
    while i < FRAME_WORDS
        invariant
            i <= FRAME_WORDS,
            frame == stack_top - FRAME_BYTES,
            memory.wf(),
            memory@.dom() == start.dom(),
            crate::memory::frame_mapped(start, frame as int),
            forall|w: int|
                0 <= w < i ==> memory@[#[trigger] crate::memory::word_at(frame as int, w)]
                    == cont_word(entry, tls, stack_top as int, w),
            forall|a: u64| a < frame || a >= stack_top ==> #[trigger] memory@[a] == start[a],
        decreases FRAME_WORDS - i,
    {
        let value: u64 = if i == 1 {
            entry
        } else if i == 2 {
            INITIAL_SPSR
        } else if i == 3 {
            stack_top - 16
        } else if i == 4 {
            tls
        } else {
            0
        };
        assert(start.contains_key(crate::memory::word_at(frame as int, i as int)));
        assert(memory@.dom().contains(crate::memory::word_at(frame as int, i as int)));
        memory.write(frame + 8 * i, value);
        assert(memory@.dom() =~= start.dom());
        i += 1;
    }
    frame
}

/// The switch from `from` to the continuation.
pub open spec fn switch_to(from: u64, c: Cont) -> ContSwitch {
    ContSwitch {
        save: from,
        target: c.state_frame,
        target_slot: c.slot_top,
        cur: c.state_frame,
    }
}

/// The switch from the continuation back to whoever resumed it.
pub open spec fn switch_back(c: Cont) -> ContSwitch {
    ContSwitch {
        save: c.state_frame,
        target: c.resumer_frame,
        target_slot: c.resumer_slot,
        cur: c.resumer_frame,
    }
}

/// The continuation that is started as number `i` of the core.
pub open spec fn started(
    layout: ContLayout,
    core: int,
    i: int,
    entry: u64,
    task_frame: u64,
    scratch_slot: u64,
) -> Cont {
    Cont {
        state_frame: (layout.stack_top(core, i) - FRAME_BYTES) as u64,
        slot_top: layout.slot_top(core, i) as u64,
        tls: CONT_TLS_MAGIC,
        state: ContState::Ready,
        pending_wake: false,
        entry,
        resumer_frame: task_frame,
        resumer_slot: scratch_slot,
    }
}

/// Whether a continuation that parks goes on at once, because it was woken
/// before.
pub open spec fn goes_on(v: ContView) -> bool {
    v.conts[v.current->0 as int].pending_wake
}

/// What parking leaves. If the continuation was woken before, that is used up
/// and it goes on.
pub open spec fn parked(v: ContView, pend: bool) -> ContView {
    let cur = v.current->0;
    let c = v.conts[cur as int];
    if c.pending_wake {
        ContView { conts: v.conts.update(cur as int, Cont { pending_wake: false, ..c }), ..v }
    } else {
        ContView {
            conts: v.conts.update(cur as int, Cont { state: ContState::Parked, ..c }),
            current: None,
            pending: if pend {
                Some(cur)
            } else {
                v.pending
            },
        }
    }
}

/// What waking leaves: the one that waits can be resumed.
pub open spec fn woken(v: ContView) -> ContView {
    match v.pending {
        None => v,
        Some(p) => ContView {
            conts: v.conts.update(
                p as int,
                Cont { pending_wake: true, state: ContState::Ready, ..v.conts[p as int] },
            ),
            ..v
        },
    }
}

/// Whether a continuation is resumed: one waits, and it was woken.
pub open spec fn resumes(v: ContView) -> bool {
    v.pending matches Some(p) && v.conts[p as int].state == ContState::Ready
}

/// What resuming leaves: the wake is used up.
pub open spec fn resumed(v: ContView, task_frame: u64, scratch_slot: u64) -> ContView {
    let p = v.pending->0;
    ContView {
        conts: v.conts.update(
            p as int,
            Cont {
                pending_wake: false,
                state: ContState::Running,
                resumer_frame: task_frame,
                resumer_slot: scratch_slot,
                ..v.conts[p as int]
            },
        ),
        current: Some(p),
        pending: None,
    }
}

impl View for Continuations {
    type V = ContView;

    open spec fn view(&self) -> ContView {
        ContView { conts: self.conts@, current: self.current, pending: self.pending }
    }
}

/// What holds of the continuations of a core: those that run or wait exist,
/// and the one that runs does not wait.
pub open spec fn cont_inv(v: ContView) -> bool {
    &&& v.current matches Some(c) ==> c < v.conts.len()
    &&& v.pending matches Some(p) ==> p < v.conts.len()
    &&& v.current matches Some(c) ==> v.pending != Some(c)
    &&& v.pending matches Some(p) ==> (v.conts[p as int].state == ContState::Ready
        || v.conts[p as int].state == ContState::Parked)
}

impl Continuations {
    /// The invariant of the continuations of a core.
    pub open spec fn wf(&self) -> bool {
        cont_inv(self@)
    }

    /// No continuation was started.
    pub fn new() -> (r: Self)
        ensures
            r.wf(),
            r@ == (ContView { conts: Seq::empty(), current: None, pending: None }),
            !r.spawned,
            r.resumes == 0,
    {
        let r = Continuations {
            conts: Vec::new(),
            current: None,
            pending: None,
            spawned: false,
            resumes: 0,
        };
        assert(r@.conts =~= Seq::<Cont>::empty());
        r
    }

    /// Starts a continuation from the frame `task_frame` with the exception
    /// slot `scratch_slot`. The core switches to it.
    pub fn spawn_continuation(
        &mut self,
        layout: &ContLayout,
        core: u64,
        memory: &mut Memory,
        entry: u64,
        task_frame: u64,
        scratch_slot: u64,
    ) -> (r: ContSwitch)
        requires
            old(self).wf(),
            old(memory).wf(),
            old(self).conts@.len() < layout.max,
            layout.fits(core as int),
            crate::memory::frame_mapped(
                old(memory)@,
                layout.stack_top(core as int, old(self).conts@.len() as int) - FRAME_BYTES,
            ),
        ensures
            final(self).wf(),
            final(memory).wf(),
            ({
                let i = old(self).conts@.len() as int;
                let c = started(*layout, core as int, i, entry, task_frame, scratch_slot);
                &&& final(self)@ == (ContView {
                    conts: old(self)@.conts.push(c),
                    current: Some(i as usize),
                    pending: old(self)@.pending,
                })
                &&& r == switch_to(task_frame, c)
                &&& frame_built(
                    old(memory)@,
                    final(memory)@,
                    entry,
                    CONT_TLS_MAGIC,
                    layout.stack_top(core as int, i),
                )
            }),
            final(self).spawned == old(self).spawned,
            final(self).resumes == old(self).resumes,
    {
        let n: usize = self.conts.len();
        let i: u64 = n as u64;
        let stack_top: u64 = cont_stack_top(layout, core, i);
        proof {
            assert((core * layout.max + i) * (layout.stack_size + layout.stack_guard) >= 0)
                by (nonlinear_arith)
                requires
                    core >= 0,
                    layout.max >= 0,
                    i >= 0,
                    layout.stack_size + layout.stack_guard >= 0,
            ;
        }
        let state_frame: u64 = build_frame(memory, stack_top, entry, CONT_TLS_MAGIC);
        let slot_top: u64 = cont_slot_top(layout, core, i);
        let c = Cont {
            state_frame,
            slot_top,
            tls: CONT_TLS_MAGIC,
            state: ContState::Ready,
            pending_wake: false,
            entry,
            resumer_frame: task_frame,
            resumer_slot: scratch_slot,
        };
        self.conts.push(c);
        self.current = Some(n);
        ContSwitch { save: task_frame, target: state_frame, target_slot: slot_top, cur: state_frame }
    }

    /// Parks the running continuation. With `pend` the interrupt that wakes it
    /// is asked for.
    fn park_with_pend(&mut self, pend: bool) -> (r: Parked)
        requires
            old(self).wf(),
            old(self).current is Some,
        ensures
            final(self).wf(),
            final(self)@ == parked(old(self)@, pend),
            r == (if goes_on(old(self)@) {
                Parked::Woken
            } else {
                Parked::Switch {
                    switch: switch_back(old(self)@.conts[old(self).current->0 as int]),
                    sgi: if pend {
                        Some(
                            crate::arch::aarch64::kernel::interrupts::ids::spec_sgi_value(
                                SGI_CONT_WAKE,
                                0,
                            ),
                        )
                    } else {
                        None
                    },
                }
            }),
            final(self).spawned == old(self).spawned,
            final(self).resumes == old(self).resumes,
    {
        let cur: usize = self.current.unwrap();
        let mut c: Cont = self.conts[cur];
        if c.pending_wake {
            c.pending_wake = false;
            self.conts.set(cur, c);
            return Parked::Woken;
        }
        c.state = ContState::Parked;
        self.conts.set(cur, c);
        let sgi: Option<u64> = if pend {
            self.pending = Some(cur);
            Some(crate::arch::aarch64::kernel::interrupts::ids::pend_sgi_to_self(SGI_CONT_WAKE))
        } else {
            None
        };
        self.current = None;
        Parked::Switch {
            switch: ContSwitch {
                save: c.state_frame,
                target: c.resumer_frame,
                target_slot: c.resumer_slot,
                cur: c.resumer_frame,
            },
            sgi,
        }
    }

    /// Parks the running continuation until it is woken.
    pub fn park_on(&mut self) -> (r: Parked)
        requires
            old(self).wf(),
            old(self).current is Some,
        ensures
            final(self).wf(),
            final(self)@ == parked(old(self)@, true),
            r == (if goes_on(old(self)@) {
                Parked::Woken
            } else {
                Parked::Switch {
                    switch: switch_back(old(self)@.conts[old(self).current->0 as int]),
                    sgi: Some(
                        crate::arch::aarch64::kernel::interrupts::ids::spec_sgi_value(
                            SGI_CONT_WAKE,
                            0,
                        ),
                    ),
                }
            }),
            final(self).spawned == old(self).spawned,
            final(self).resumes == old(self).resumes,
    {
        self.park_with_pend(true)
    }

    /// Parks the running continuation for good.
    pub fn park_final(&mut self) -> (r: Parked)
        requires
            old(self).wf(),
            old(self).current is Some,
        ensures
            final(self).wf(),
            final(self)@ == parked(old(self)@, false),
            r == (if goes_on(old(self)@) {
                Parked::Woken
            } else {
                Parked::Switch {
                    switch: switch_back(old(self)@.conts[old(self).current->0 as int]),
                    sgi: None,
                }
            }),
            final(self).spawned == old(self).spawned,
            final(self).resumes == old(self).resumes,
    {
        self.park_with_pend(false)
    }

    /// Wakes the continuation that waits, if there is one.
    pub fn coop_wake(&mut self)
        requires
            old(self).wf(),
        ensures
            final(self).wf(),
            final(self)@ == woken(old(self)@),
            final(self).spawned == old(self).spawned,
            final(self).resumes == old(self).resumes,
    {
        match self.pending {
            Some(p) => {
                let mut c: Cont = self.conts[p];
                c.pending_wake = true;
                c.state = ContState::Ready;
                self.conts.set(p, c);
            },
            None => {},
        }
    }

    /// Resumes the continuation that waits, if it was woken, from the frame
    /// `task_frame` with the exception slot `scratch_slot`.
    pub fn drain_ready(&mut self, task_frame: u64, scratch_slot: u64) -> (r: Option<ContSwitch>)
        requires
            old(self).wf(),
        ensures
            final(self).wf(),
            match r {
                Some(switch) => {
                    &&& resumes(old(self)@)
                    &&& switch == switch_to(
                        task_frame,
                        old(self)@.conts[old(self).pending->0 as int],
                    )
                    &&& final(self)@ == resumed(old(self)@, task_frame, scratch_slot)
                },
                None => !resumes(old(self)@) && final(self)@ == old(self)@,
            },
            final(self).spawned == old(self).spawned,
            final(self).resumes == old(self).resumes,
    {
        let pending: usize = match self.pending {
            Some(p) => p,
            None => {
                return None;
            },
        };
        let mut c: Cont = self.conts[pending];
        if c.state != ContState::Ready {
            return None;
        }
        c.pending_wake = false;
        c.resumer_frame = task_frame;
        c.resumer_slot = scratch_slot;
        c.state = ContState::Running;
        self.conts.set(pending, c);
        self.pending = None;
        self.current = Some(pending);
        Some(
            ContSwitch {
                save: task_frame,
                target: c.state_frame,
                target_slot: c.slot_top,
                cur: c.state_frame,
            },
        )
    }

    /// Whether the trial is to be started: once, on core 0, when the drivers
    /// are ready.
    pub fn continuation_maybe_trigger(&mut self, core_id: u32, drivers_ready: bool) -> (r: bool)
        ensures
            r == (core_id == 0 && drivers_ready && !old(self).spawned),
            final(self).spawned == (old(self).spawned || r),
            final(self)@ == old(self)@,
            final(self).resumes == old(self).resumes,
    {
        if core_id != 0 {
            return false;
        }
        if !drivers_ready {
            return false;
        }
        if self.spawned {
            return false;
        }
        self.spawned = true;
        true
    }

    /// Whether the trial passed when it was resumed: for the first time, with
    /// its own thread pointer and its own exception slot.
    pub fn harness_passed(&mut self, tls: u64, slot: u64, expected_slot: u64) -> (r: bool)
        requires
            old(self).resumes < u32::MAX,
        ensures
            final(self).resumes == old(self).resumes + 1,
            r == (tls == CONT_TLS_MAGIC && slot == expected_slot && old(self).resumes == 0),
            final(self)@ == old(self)@,
            final(self).spawned == old(self).spawned,
    {
        self.resumes = self.resumes + 1;
        tls == CONT_TLS_MAGIC && slot == expected_slot && self.resumes == 1
    }
}

/// The stacks of different continuations of a core have no address in common.
pub proof fn lemma_cont_stacks_apart(layout: ContLayout, core: int, i: int, j: int)
    requires
        0 <= i < j,
    ensures
        layout.stack_top(core, i) + layout.stack_guard <= layout.stack_top(core, j)
            - layout.stack_size,
        layout.slot_top(core, i) + layout.slot_guard <= layout.slot_top(core, j)
            - layout.slot_size,
{
    let m = core * layout.max;
    let s = layout.stack_size + layout.stack_guard;
    let t = layout.slot_size + layout.slot_guard;
    assert((m + i) * s + s <= (m + j) * s) by (nonlinear_arith)
        requires
            i + 1 <= j,
            s >= 0,
    ;
    assert((m + i) * t + t <= (m + j) * t) by (nonlinear_arith)
        requires
            i + 1 <= j,
            t >= 0,
    ;
}

/// A continuation that parks is not resumed before it is woken, and when it is
/// woken it is the one that is resumed.
pub proof fn lemma_park_until_woken(v: ContView)
    requires
        cont_inv(v),
        v.current is Some,
        !goes_on(v),
    ensures
        !resumes(parked(v, true)),
        resumes(woken(parked(v, true))),
        woken(parked(v, true)).pending == v.current,
{
}

/// A wake resumes a continuation once: after it was resumed, nothing is resumed
/// before another one parks and is woken, however often is woken.
pub proof fn lemma_single_resume(v: ContView, task_frame: u64, scratch_slot: u64)
    requires
        cont_inv(v),
        resumes(v),
    ensures
        !resumes(resumed(v, task_frame, scratch_slot)),
        woken(resumed(v, task_frame, scratch_slot)) == resumed(v, task_frame, scratch_slot),
{
}

/// A continuation that was resumed can park again: the wake that resumed it is
/// used up. Parking goes back to whoever resumed it.
pub proof fn lemma_wake_used_up(v: ContView, task_frame: u64, scratch_slot: u64)
    requires
        cont_inv(v),
        resumes(v),
    ensures
        !goes_on(resumed(v, task_frame, scratch_slot)),
        ({
            let r = resumed(v, task_frame, scratch_slot);
            switch_back(r.conts[r.current->0 as int]) == (ContSwitch {
                save: v.conts[v.pending->0 as int].state_frame,
                target: task_frame,
                target_slot: scratch_slot,
                cur: task_frame,
            })
        }),
{
}

/// A continuation goes on from the frame that parking saved it in, with its own
/// exception slot, and keeps its thread pointer.
pub proof fn lemma_park_resume_roundtrip(v: ContView, task_frame: u64, scratch_slot: u64)
    requires
        cont_inv(v),
        v.current is Some,
        !goes_on(v),
    ensures
        ({
            let i = v.current->0 as int;
            let w = woken(parked(v, true));
            let r = resumed(w, task_frame, scratch_slot);
            let to = switch_to(task_frame, w.conts[w.pending->0 as int]);
            &&& to.target == switch_back(v.conts[i]).save
            &&& to.target_slot == v.conts[i].slot_top
            &&& r.current == v.current
            &&& r.conts[i].tls == v.conts[i].tls
            &&& forall|j: int|
                0 <= j < v.conts.len() && j != i ==> #[trigger] r.conts[j] == v.conts[j]
        }),
{
}

} // verus!

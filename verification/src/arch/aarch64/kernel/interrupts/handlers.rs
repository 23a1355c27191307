//! Which handlers run on which interrupt.

use vstd::prelude::*;

use std::collections::VecDeque;

use crate::arch::aarch64::kernel::interrupts::ids::{
    PPI_START, SGI_CONT_WAKE, SGI_COOP_WAKE, SGI_RT_BRIDGE, SPI_START,
};
use crate::handle_map::HandleMap;

verus! {

/// What runs when an interrupt comes.
#[derive(Copy, Clone, Debug, Eq, PartialEq, Structural)]
pub enum Handler {
    /// A driver's handler.
    Driver(u64),
    /// The timer's.
    Timer,
    /// The serial port's.
    Uart,
    /// Notes that the cooperative band was woken.
    CoopWake,
    /// Wakes the cooperative band from the real-time band.
    RtBridge,
    /// Wakes a continuation.
    ContWake,
}

/// Which optional parts the kernel has.
#[derive(Copy, Clone, Debug, Eq, PartialEq, Structural)]
pub struct Features {
    /// The test of nested preemption.
    pub pmr_preempt_spike: bool,
    /// Executors by priority band.
    pub pmr_band: bool,
    /// The network on the cooperative band.
    pub pmr_coop_net: bool,
    /// Continuations.
    pub continuations: bool,
}

/// The handlers by the interrupts' numbers.
pub struct InterruptHandlers {
    index: HandleMap,
    queues: Vec<VecDeque<Handler>>,
}

impl View for InterruptHandlers {
    type V = Map<u8, Seq<Handler>>;

    /// The handlers by the interrupts' numbers, in the order in which they run.
    closed spec fn view(&self) -> Map<u8, Seq<Handler>> {
        Map::new(
            |k: u8| self.index@.contains_key(k as i32),
            |k: u8| self.queues@[self.index@[k as i32] as int]@,
        )
    }
}

/// `map` with `handler` added to those of the interrupt `k`.
pub open spec fn with_handler(map: Map<u8, Seq<Handler>>, k: u8, handler: Handler) -> Map<
    u8,
    Seq<Handler>,
> {
    map.insert(
        k,
        if map.contains_key(k) {
            map[k].push(handler)
        } else {
            seq![handler]
        },
    )
}

/// The handlers of drivers, which name shared peripheral interrupts from 0.
pub open spec fn driver_handlers(old: Seq<(u8, Vec<u64>)>) -> Map<u8, Seq<Handler>>
    decreases old.len(),
{
    if old.len() == 0 {
        Map::empty()
    } else {
        let (key, queue) = old.last();
        driver_handlers(old.drop_last()).insert(
            (key + SPI_START) as u8,
            queue@.map_values(|h: u64| Handler::Driver(h)),
        )
    }
}

/// All handlers once they are installed: the drivers', the timer's and the
/// serial port's, and those of the optional parts.
pub open spec fn installed(
    old: Seq<(u8, Vec<u64>)>,
    timer_interrupt: u32,
    uart_interrupt: u32,
    features: Features,
) -> Map<u8, Seq<Handler>> {
    let a = driver_handlers(old);
    let b = with_handler(a, (timer_interrupt + PPI_START) as u8, Handler::Timer);
    let c = with_handler(b, (uart_interrupt + SPI_START) as u8, Handler::Uart);
    let d = if features.pmr_band || features.pmr_coop_net {
        with_handler(c, SGI_COOP_WAKE, Handler::CoopWake)
    } else {
        c
    };
    let e = if features.pmr_band {
        with_handler(d, SGI_RT_BRIDGE, Handler::RtBridge)
    } else {
        d
    };
    if features.continuations {
        with_handler(e, SGI_CONT_WAKE, Handler::ContWake)
    } else {
        e
    }
}

impl InterruptHandlers {
    /// Every interrupt with handlers has a queue of its own.
    pub closed spec fn wf(&self) -> bool {
        &&& forall|k: i32| #[trigger]
            self.index@.contains_key(k) ==> self.index@[k] < self.queues@.len()
        &&& forall|k: i32, l: i32| #[trigger]
            self.index@.contains_key(k) && #[trigger] self.index@.contains_key(l) && k != l
                ==> self.index@[k] != self.index@[l]
    }

    /// No interrupt has a handler.
    pub fn new() -> (r: Self)
        ensures
            r.wf(),
            r@ == Map::<u8, Seq<Handler>>::empty(),
    {
        let r = InterruptHandlers { index: HandleMap::with_seeds(0, 0, 0, 0), queues: Vec::new() };
        assert(r@ =~= Map::<u8, Seq<Handler>>::empty());
        r
    }

    /// Gives the interrupt `k` the handlers of `queue` in place of those it has.
    fn set(&mut self, k: u8, queue: VecDeque<Handler>)
        requires
            old(self).wf(),
        ensures
            final(self).wf(),
            final(self)@ == old(self)@.insert(k, queue@),
    {
        let ghost handlers = queue@;
        let at: u64 = self.queues.len() as u64;
        self.queues.push(queue);
        let _ = self.index.insert(k as i32, at);
        proof {
            assert forall|j: i32| #[trigger] self.index@.contains_key(j) implies self.index@[j]
                < self.queues@.len() by {
                if j != k as i32 {
                    assert(old(self).index@.contains_key(j));
                }
            }
            assert forall|j: i32, l: i32| #[trigger]
                self.index@.contains_key(j) && #[trigger] self.index@.contains_key(l) && j
                    != l implies self.index@[j] != self.index@[l] by {
                if j != k as i32 {
                    assert(old(self).index@.contains_key(j));
                }
                if l != k as i32 {
                    assert(old(self).index@.contains_key(l));
                }
            }
            assert forall|j: u8| #[trigger] self@.contains_key(j) implies self@[j] == old(
                self,
            )@.insert(k, handlers)[j] by {
                if j != k {
                    assert(old(self).index@.contains_key(j as i32));
                }
            }
            assert(self@ =~= old(self)@.insert(k, handlers));
        }
    }

    /// Adds a handler to those of the interrupt `k`.
    fn push(&mut self, k: u8, handler: Handler)
        requires
            old(self).wf(),
        ensures
            final(self).wf(),
            final(self)@ == with_handler(old(self)@, k, handler),
    {
        match self.index.get(k as i32) {
            Some(at) => {
                assert(self.index@.contains_key(k as i32));
                assert(at < self.queues.len());
                let queue = &mut self.queues[at as usize];
                queue.push_back(handler);
                proof {
                    assert(self.index@ == old(self).index@);
                    assert forall|j: u8| #[trigger] self@.contains_key(j) implies self@[j]
                        == with_handler(old(self)@, k, handler)[j] by {
                        assert(self.index@.contains_key(j as i32));
                        assert(self.index@.contains_key(k as i32));
                    }
                    assert(self@ =~= with_handler(old(self)@, k, handler));
                }
            },
            None => {
                let mut queue: VecDeque<Handler> = VecDeque::new();
                queue.push_back(handler);
                assert(queue@ =~= seq![handler]);
                self.set(k, queue);
            },
        }
    }

    /// The handlers of the interrupt `k`, in the order in which they run.
    pub fn get(&self, k: u8) -> (r: Vec<Handler>)
        requires
            self.wf(),
        ensures
            r@ == (if self@.contains_key(k) {
                self@[k]
            } else {
                Seq::empty()
            }),
    {
        let mut handlers: Vec<Handler> = Vec::new();
        match self.index.get(k as i32) {
            Some(at) => {
                assert(self.index@.contains_key(k as i32));
                assert(at < self.queues.len());
                let queue = &self.queues[at as usize];
                let mut i: usize = 0;
                while i < queue.len()
                    invariant
                        i <= queue@.len(),
                        handlers@ == queue@.take(i as int),
                    decreases queue@.len() - i,
                {
                    handlers.push(queue[i]);
                    i += 1;
                    assert(handlers@ =~= queue@.take(i as int));
                }
                assert(handlers@ =~= queue@);
            },
            None => {},
        }
        handlers
    }
}

/// Installs all handlers: those of drivers, which name shared peripheral
/// interrupts from 0, the timer's and the serial port's, and those of the
/// optional parts.
pub fn install_handlers(
    old_handlers: &Vec<(u8, Vec<u64>)>,
    timer_interrupt: u32,
    uart_interrupt: u32,
    features: Features,
) -> (r: InterruptHandlers)
    requires
        forall|i: int|
            0 <= i < old_handlers@.len() ==> (#[trigger] old_handlers@[i]).0 + SPI_START <= 255,
        timer_interrupt + PPI_START <= 255,
        uart_interrupt + SPI_START <= 255,
    ensures
        r.wf(),
        r@ == installed(old_handlers@, timer_interrupt, uart_interrupt, features),
{
    let mut handlers = InterruptHandlers::new();
    let mut i: usize = 0;
    assert(old_handlers@.take(0) =~= Seq::<(u8, Vec<u64>)>::empty());
    while i < old_handlers.len()
        invariant
            i <= old_handlers@.len(),
            handlers.wf(),
            handlers@ == driver_handlers(old_handlers@.take(i as int)),
            forall|j: int|
                0 <= j < old_handlers@.len() ==> (#[trigger] old_handlers@[j]).0 + SPI_START <= 255,
        decreases old_handlers@.len() - i,
    {
        let entry = &old_handlers[i];
        let key: u8 = entry.0;
        let value = &entry.1;
        let mut queue: VecDeque<Handler> = VecDeque::new();
        let mut j: usize = 0;
        while j < value.len()
            invariant
                j <= value@.len(),
                queue@ == value@.take(j as int).map_values(|h: u64| Handler::Driver(h)),
            decreases value@.len() - j,
        {
            queue.push_back(Handler::Driver(value[j]));
            j += 1;
            assert(queue@ =~= value@.take(j as int).map_values(|h: u64| Handler::Driver(h)));
        }
        assert(queue@ =~= value@.map_values(|h: u64| Handler::Driver(h)));
        handlers.set(key + SPI_START, queue);
        proof {
            let next = old_handlers@.take(i + 1);
            assert(next.drop_last() =~= old_handlers@.take(i as int));
            assert(next.last() == old_handlers@[i as int]);
        }
        i += 1;
    }
    assert(old_handlers@.take(i as int) =~= old_handlers@);
    handlers.push(timer_interrupt as u8 + PPI_START, Handler::Timer);
    handlers.push(uart_interrupt as u8 + SPI_START, Handler::Uart);
    if features.pmr_band || features.pmr_coop_net {
        handlers.push(SGI_COOP_WAKE, Handler::CoopWake);
    }
    if features.pmr_band {
        handlers.push(SGI_RT_BRIDGE, Handler::RtBridge);
    }
    if features.continuations {
        handlers.push(SGI_CONT_WAKE, Handler::ContWake);
    }
    handlers
}

} // verus!

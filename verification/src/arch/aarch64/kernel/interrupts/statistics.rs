//! Names of interrupts, and how often each came.

use vstd::prelude::*;

use std::collections::BTreeMap;

use vstd::std_specs::cmp::OrdSpec;
use vstd::std_specs::iter::IteratorSpec;

use crate::arch::aarch64::kernel::interrupts::ids::SPI_START;
use crate::handle_map::HandleMap;

verus! {

/// The names of interrupts by their numbers.
pub struct IrqNames {
    index: HandleMap,
    names: Vec<&'static str>,
}

impl View for IrqNames {
    type V = Map<u8, Seq<char>>;

    /// The names by the interrupts' numbers.
    closed spec fn view(&self) -> Map<u8, Seq<char>> {
        Map::new(
            |k: u8| self.index@.contains_key(k as i32),
            |k: u8| self.names@[self.index@[k as i32] as int]@,
        )
    }
}

impl IrqNames {
    /// Every name is in the list.
    pub closed spec fn wf(&self) -> bool {
        forall|k: i32| #[trigger]
            self.index@.contains_key(k) ==> self.index@[k] < self.names@.len()
    }

    /// No interrupt has a name.
    pub fn new() -> (r: Self)
        ensures
            r.wf(),
            r@ == Map::<u8, Seq<char>>::empty(),
    {
        let r = IrqNames { index: HandleMap::with_seeds(0, 0, 0, 0), names: Vec::new() };
        assert(r@ =~= Map::<u8, Seq<char>>::empty());
        r
    }

    /// Names the interrupt with the number `irq`.
    pub fn insert(&mut self, irq: u8, name: &'static str)
        requires
            old(self).wf(),
        ensures
            final(self).wf(),
            final(self)@ == old(self)@.insert(irq, name@),
    {
        let at: u64 = self.names.len() as u64;
        self.names.push(name);
        let _ = self.index.insert(irq as i32, at);
        assert forall|k: i32| #[trigger] self.index@.contains_key(k) implies self.index@[k]
            < self.names@.len() by {
            if k != irq as i32 {
                assert(old(self).index@.contains_key(k));
            }
        }
        assert forall|k: u8| #[trigger] self@.contains_key(k) == old(self)@.insert(
            irq,
            name@,
        ).contains_key(k) by {
            assert(k as i32 == irq as i32 <==> k == irq);
        }
        assert forall|k: u8| #[trigger] self@.contains_key(k) implies self@[k] == old(self)@.insert(
            irq,
            name@,
        )[k] by {
            if k != irq {
                assert(old(self).index@.contains_key(k as i32));
            }
        }
        assert(self@ =~= old(self)@.insert(irq, name@));
    }

    /// Names a shared peripheral interrupt.
    pub fn add_irq_name(&mut self, irq_number: u8, name: &'static str)
        requires
            old(self).wf(),
            SPI_START + irq_number <= 255,
        ensures
            final(self).wf(),
            final(self)@ == old(self)@.insert((SPI_START + irq_number) as u8, name@),
    {
        self.insert(SPI_START + irq_number, name);
    }

    /// The name of the interrupt with the number `irq_number`, if it has one.
    pub fn get_irq_name(&self, irq_number: u8) -> (r: Option<&'static str>)
        requires
            self.wf(),
        ensures
            match r {
                Some(name) => self@.contains_key(irq_number) && name@ == self@[irq_number],
                None => !self@.contains_key(irq_number),
            },
    {
        match self.index.get(irq_number as i32) {
            Some(at) => {
                assert(self.index@.contains_key(irq_number as i32));
                assert(at < self.names.len());
                Some(self.names[at as usize])
            },
            None => None,
        }
    }
}

/// How often each interrupt came on a core.
pub struct IrqStatistics {
    counters: Vec<u64>,
}

impl View for IrqStatistics {
    type V = Seq<u64>;

    /// The counters by the interrupts' numbers.
    closed spec fn view(&self) -> Seq<u64> {
        self.counters@
    }
}

/// One more; counters wrap around.
pub open spec fn wrapping_inc(n: u64) -> u64 {
    if n == u64::MAX {
        0
    } else {
        (n + 1) as u64
    }
}

impl IrqStatistics {
    /// There is a counter for each number.
    pub open spec fn wf(&self) -> bool {
        self@.len() == 256
    }

    /// No interrupt came yet.
    pub fn new() -> (r: Self)
        ensures
            r.wf(),
            forall|i: int| 0 <= i < 256 ==> #[trigger] r@[i] == 0,
    {
        let mut counters: Vec<u64> = Vec::new();
        let mut i: usize = 0;
        while i < 256
            invariant
                i <= 256,
                counters@.len() == i,
                forall|j: int| 0 <= j < i ==> #[trigger] counters@[j] == 0,
            decreases 256 - i,
        {
            counters.push(0);
            i += 1;
        }
        IrqStatistics { counters }
    }

    /// Counts the interrupt with the number `pos`.
    pub fn inc(&mut self, pos: u8)
        requires
            old(self).wf(),
        ensures
            final(self).wf(),
            final(self)@ == old(self)@.update(pos as int, wrapping_inc(old(self)@[pos as int])),
    {
        let i: usize = pos as usize;
        let counter: u64 = self.counters[i];
        self.counters.set(i, counter.wrapping_add(1));
    }
}

/// A line of the statistics: how often an interrupt came on a core, with the
/// interrupt's name if it has one.
#[derive(Copy, Clone, Debug)]
pub struct IrqLine {
    pub core_id: u32,
    pub irq: u8,
    pub name: Option<&'static str>,
    pub counter: u64,
}

/// What a line of the statistics says.
pub struct IrqLineView {
    pub core_id: u32,
    pub irq: u8,
    pub name: Option<Seq<char>>,
    pub counter: u64,
}

impl View for IrqLine {
    type V = IrqLineView;

    open spec fn view(&self) -> IrqLineView {
        IrqLineView {
            core_id: self.core_id,
            irq: self.irq,
            name: match self.name {
                Some(name) => Some(name@),
                None => None,
            },
            counter: self.counter,
        }
    }
}

/// The lines of one core for the interrupts below `n`: one for each interrupt
/// that came, in ascending order, with its name if it has one.
pub open spec fn core_lines(
    core_id: u32,
    counters: Seq<u64>,
    names: Map<u8, Seq<char>>,
    n: int,
) -> Seq<IrqLineView>
    decreases n,
{
    if n <= 0 {
        Seq::empty()
    } else {
        let before = core_lines(core_id, counters, names, n - 1);
        let irq = (n - 1) as u8;
        if counters[n - 1] > 0 {
            before.push(
                IrqLineView {
                    core_id,
                    irq,
                    name: if names.contains_key(irq) {
                        Some(names[irq])
                    } else {
                        None
                    },
                    counter: counters[n - 1],
                },
            )
        } else {
            before
        }
    }
}

/// The lines of the cores below `n`, one core after the other in ascending order.
pub open spec fn all_lines(
    cores: Map<u32, Seq<u64>>,
    names: Map<u8, Seq<char>>,
    n: int,
) -> Seq<IrqLineView>
    decreases n,
{
    if n <= 0 {
        Seq::empty()
    } else {
        let before = all_lines(cores, names, n - 1);
        let core_id = (n - 1) as u32;
        if cores.contains_key(core_id) {
            before + core_lines(core_id, cores[core_id], names, 256)
        } else {
            before
        }
    }
}

/// Number of cores that a number of a core can tell apart.
pub open spec fn all_cores() -> int {
    0x1_0000_0000
}

/// Cores that are not there have no lines.
proof fn lemma_no_lines(
    cores: Map<u32, Seq<u64>>,
    names: Map<u8, Seq<char>>,
    lo: int,
    hi: int,
)
    requires
        0 <= lo <= hi <= all_cores(),
        forall|k: u32| lo <= k < hi ==> !#[trigger] cores.contains_key(k),
    ensures
        all_lines(cores, names, hi) == all_lines(cores, names, lo),
    decreases hi - lo,
{
    if lo < hi {
        lemma_no_lines(cores, names, lo, hi - 1);
        assert(!cores.contains_key((hi - 1) as u32));
    }
}

/// What the lines say.
pub open spec fn line_views(lines: Seq<IrqLine>) -> Seq<IrqLineView> {
    lines.map_values(|l: IrqLine| l@)
}

/// The counters of the cores that are online.
pub struct IrqCounters<'a> {
    cores: BTreeMap<u32, &'a IrqStatistics>,
}

impl<'a> View for IrqCounters<'a> {
    type V = Map<u32, Seq<u64>>;

    /// The counters by core.
    closed spec fn view(&self) -> Map<u32, Seq<u64>> {
        self.cores@.map_values(|statistics: &'a IrqStatistics| statistics@)
    }
}

impl<'a> IrqCounters<'a> {
    /// Each core has all its counters.
    pub closed spec fn wf(&self) -> bool {
        forall|k: u32| #[trigger] self.cores@.contains_key(k) ==> self.cores@[k].wf()
    }

    /// No core is online.
    pub fn new() -> (r: Self)
        ensures
            r.wf(),
            r@ == Map::<u32, Seq<u64>>::empty(),
    {
        let r = IrqCounters { cores: BTreeMap::new() };
        assert(r@ =~= Map::<u32, Seq<u64>>::empty());
        r
    }

    /// Adds the counters of a core, in place of those it had.
    pub fn add_irq_counter(&mut self, core_id: u32, statistics: &'a IrqStatistics)
        requires
            old(self).wf(),
            statistics.wf(),
        ensures
            final(self).wf(),
            final(self)@ == old(self)@.insert(core_id, statistics@),
    {
        broadcast use vstd::std_specs::btree::group_btree_axioms;

        let _ = self.cores.insert(core_id, statistics);
        assert(self@ =~= old(self)@.insert(core_id, statistics@));
    }
}

/// What a map lists in order is in ascending order.
proof fn lemma_ascending(keys: Seq<u32>)
    requires
        vstd::std_specs::btree::increasing_seq(keys),
    ensures
        forall|i: int, j: int| 0 <= i < j < keys.len() ==> keys[i] < keys[j],
{
    broadcast use {vstd::std_specs::btree::group_btree_axioms, vstd::laws_cmp::group_laws_cmp};

    assert forall|i: int, j: int| 0 <= i < j < keys.len() implies keys[i] < keys[j] by {
        assert(keys[i].cmp_spec(&keys[j]) is Less);
    }
}

/// Whether the cores of a list are in ascending order, and are those of `cores`.
spec fn lists_cores<'a>(
    list: Seq<(&'a u32, &'a &'a IrqStatistics)>,
    cores: Map<u32, &'a IrqStatistics>,
) -> bool {
    &&& forall|i: int, j: int| 0 <= i < j < list.len() ==> *list[i].0 < *list[j].0
    &&& forall|i: int|
        0 <= i < list.len() ==> cores.contains_key(*(#[trigger] list[i]).0)
            && cores[*list[i].0] == *list[i].1
    &&& forall|k: u32| #[trigger]
        cores.contains_key(k) ==> exists|i: int| 0 <= i < list.len() && *(#[trigger] list[i]).0 == k
}

/// The lines of the statistics: for each core that is online, in ascending
/// order, those of the interrupts that came.
pub fn print_statistics<'a>(counters: &IrqCounters<'a>, names: &IrqNames) -> (r: Vec<IrqLine>)
    requires
        counters.wf(),
        names.wf(),
    ensures
        line_views(r@) == all_lines(counters@, names@, all_cores()),
{
    broadcast use vstd::std_specs::btree::group_btree_axioms;

    let mut lines: Vec<IrqLine> = Vec::new();
    let ghost mut below: int = 0;
    assert(line_views(lines@) =~= Seq::<IrqLineView>::empty());
    let iter = counters.cores.iter();
    let ghost list = iter.remaining();
    assert(lists_cores(list, counters.cores@)) by {
        let keys = list.map_values(|kv: (&'a u32, &'a &'a IrqStatistics)| *kv.0);
        assert(vstd::std_specs::btree::increasing_seq(keys));
        lemma_ascending(keys);
        assert forall|i: int, j: int| 0 <= i < j < list.len() implies *list[i].0 < *list[j].0 by {
            assert(keys[i] < keys[j]);
        }
        assert forall|k: u32| #[trigger] counters.cores@.contains_key(k) implies exists|i: int|
            0 <= i < list.len() && *(#[trigger] list[i]).0 == k by {
            assert(list.contains((&k, &counters.cores@[k])));
        }
    }
    for (core, statistics) in it: iter
        invariant
            it.seq() == list,
            lists_cores(list, counters.cores@),
            counters.wf(),
            names.wf(),
            below == (if it.index() == 0 { 0 } else { *it.seq()[it.index() - 1].0 + 1 }),
            line_views(lines@) == all_lines(counters@, names@, below),
    {
        let ghost before = line_views(lines@);
        let core_id: u32 = *core;
        proof {
            assert(counters.cores@.contains_key(core_id));
            assert(counters.cores@[core_id] == *statistics);
            lemma_no_lines(counters@, names@, below, core_id as int);
        }
        let mut i: usize = 0;
        assert(before =~= before + core_lines(core_id, statistics@, names@, 0));
        while i < 256
            invariant
                i <= 256,
                statistics.wf(),
                names.wf(),
                line_views(lines@) == before + core_lines(core_id, statistics@, names@, i as int),
            decreases 256 - i,
        {
            let counter: u64 = statistics.counters[i];
            let ghost so_far = line_views(lines@);
            if counter > 0 {
                let irq: u8 = i as u8;
                let line = IrqLine { core_id, irq, name: names.get_irq_name(irq), counter };
                lines.push(line);
                assert(line_views(lines@) =~= so_far.push(line@));
                assert(line_views(lines@) =~= before + core_lines(
                    core_id,
                    statistics@,
                    names@,
                    i + 1,
                ));
            }
            i += 1;
        }
        proof {
            below = core_id + 1;
        }
    }
    proof {
        lemma_no_lines(counters@, names@, below, all_cores());
    }
    lines
}

} // verus!

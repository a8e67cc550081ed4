//! Caches beside a procedure's instructions. They decide how fast instructions
//! run, never what they do.

use vstd::prelude::*;
use crate::program::{Module, ProcedureId};
use crate::table::Table;
use crate::value::TypePath;

verus! {

/// How often an entry is seen before its region is compiled.
pub const REGION_ENTRY_THRESHOLD: u16 = 16;

/// Where a field was found in receivers of each type.
pub struct FieldSlotCache {
    pub types: Vec<(TypePath, usize)>,
}

impl FieldSlotCache {
    /// A cache without types.
    pub fn new() -> (cache: Self)
        ensures
            cache.types@.len() == 0,
    {
        FieldSlotCache { types: Vec::new() }
    }

    /// How many types it knows.
    pub fn tracked_type_count(&self) -> (count: usize)
        ensures
            count == self.types@.len(),
    {
        self.types.len()
    }
}

/// What is cached for one instruction. A region is known by its number.
pub enum PcCache {
    /// Nothing yet.
    Cold,
    /// Where a field read found its field.
    FieldRead(FieldSlotCache),
    /// An entry seen this often.
    RegionCounting(u16),
    /// A compiled region.
    Region(u64),
    /// A region that could not be compiled.
    RegionRejected,
}

/// The caches of one procedure, one for each instruction.
pub struct ProcedureSidecar {
    pub pcs: Vec<PcCache>,
}

/// Whether another poll of a cache compiles its region.
pub open spec fn is_due(cache: PcCache) -> bool {
    match cache {
        PcCache::RegionCounting(count) => count + 1 >= REGION_ENTRY_THRESHOLD,
        _ => false,
    }
}

/// A cache after one more poll; `compiled` is what compiling gives where it is
/// due.
pub open spec fn polled(cache: PcCache, compiled: Option<u64>) -> PcCache {
    match cache {
        PcCache::Cold => PcCache::RegionCounting(1),
        PcCache::RegionCounting(count) => if is_due(cache) {
            match compiled {
                Some(region) => PcCache::Region(region),
                None => PcCache::RegionRejected,
            }
        } else {
            PcCache::RegionCounting((count + 1) as u16)
        },
        other => other,
    }
}

/// A cache after some polls, none of which compiles.
pub open spec fn polled_times(cache: PcCache, times: nat) -> PcCache
    decreases times,
{
    if times == 0 {
        cache
    } else {
        polled(polled_times(cache, (times - 1) as nat), None)
    }
}

/// The region of a cache.
pub open spec fn region_of(cache: PcCache) -> Option<u64> {
    match cache {
        PcCache::Region(region) => Some(region),
        _ => None,
    }
}

/// Whether a cache takes part in compiling regions.
pub open spec fn counts_regions(cache: PcCache) -> bool {
    cache is RegionCounting || cache is Region || cache is RegionRejected
}

impl ProcedureSidecar {
    /// The cache of an instruction; nothing is cached beyond the last one.
    pub open spec fn at(&self, pc: usize) -> Option<PcCache> {
        if pc < self.pcs@.len() {
            Some(self.pcs@[pc as int])
        } else {
            None
        }
    }

    /// Caches with nothing in them.
    pub fn new(instruction_count: usize) -> (sidecar: Self)
        ensures
            sidecar.pcs@ == Seq::new(instruction_count as nat, |i: int| PcCache::Cold),
    {
        let mut pcs: Vec<PcCache> = Vec::new();
        while pcs.len() < instruction_count
            invariant
                pcs@.len() <= instruction_count,
                forall|i: int| 0 <= i < pcs@.len() ==> #[trigger] pcs@[i] == PcCache::Cold,
            decreases instruction_count - pcs@.len(),
        {
            pcs.push(PcCache::Cold);
        }
        assert(pcs@ =~= Seq::new(instruction_count as nat, |i: int| PcCache::Cold));
        ProcedureSidecar { pcs }
    }

    /// The field cache of an instruction, if it has one.
    pub fn field_read_cache(&mut self, instruction_index: usize) -> (cache: Option<
        &mut FieldSlotCache,
    >)
        ensures
            match cache {
                Some(cache) => old(self).at(instruction_index) == Some(PcCache::FieldRead(*cache))
                    && final(self).pcs@ == old(self).pcs@.update(
                    instruction_index as int,
                    PcCache::FieldRead(*final(cache)),
                ),
                None => !(old(self).at(instruction_index) matches Some(PcCache::FieldRead(_)))
                    && final(self).pcs@ == old(self).pcs@,
            },
    {
        if instruction_index >= self.pcs.len() {
            return None;
        }
        match &mut self.pcs[instruction_index] {
            PcCache::FieldRead(cache) => Some(cache),
            _ => None,
        }
    }

    /// The field cache of an instruction, made where nothing is cached yet.
    pub fn field_read_cache_or_install(&mut self, instruction_index: usize) -> (cache: Option<
        &mut FieldSlotCache,
    >)
        ensures
            match cache {
                Some(cache) => final(self).pcs@ == old(self).pcs@.update(
                    instruction_index as int,
                    PcCache::FieldRead(*final(cache)),
                ) && match old(self).at(instruction_index) {
                    Some(PcCache::FieldRead(found)) => *cache == found,
                    Some(PcCache::Cold) => cache.types@.len() == 0,
                    _ => false,
                },
                None => final(self).pcs@ == old(self).pcs@ && match old(self).at(instruction_index) {
                    Some(found) => counts_regions(found),
                    None => true,
                },
            },
    {
        if instruction_index >= self.pcs.len() {
            return None;
        }
        let cold: bool = matches!(self.pcs[instruction_index], PcCache::Cold);
        if cold {
            self.pcs.set(instruction_index, PcCache::FieldRead(FieldSlotCache::new()));
        }
        match &mut self.pcs[instruction_index] {
            PcCache::FieldRead(cache) => Some(cache),
            _ => None,
        }
    }

    /// Whether the next poll of an instruction compiles its region.
    pub fn wants_region_at(&self, pc: usize) -> (due: bool)
        ensures
            due == match self.at(pc) {
                Some(cache) => is_due(cache),
                None => false,
            },
    {
        if pc >= self.pcs.len() {
            return false;
        }
        match &self.pcs[pc] {
            PcCache::RegionCounting(count) => *count >= REGION_ENTRY_THRESHOLD - 1,
            _ => false,
        }
    }

    /// Notes that an instruction is entered. `compiled` is what compiling its
    /// region gave, where that is due.
    pub fn poll_region_at(&mut self, pc: usize, compiled: Option<u64>)
        ensures
            final(self).pcs@ == match old(self).at(pc) {
                Some(cache) => old(self).pcs@.update(pc as int, polled(cache, compiled)),
                None => old(self).pcs@,
            },
    {
        if pc >= self.pcs.len() {
            return ;
        }
        let next = match &self.pcs[pc] {
            PcCache::Cold => PcCache::RegionCounting(1),
            PcCache::RegionCounting(count) => if *count >= REGION_ENTRY_THRESHOLD - 1 {
                match compiled {
                    Some(region) => PcCache::Region(region),
                    None => PcCache::RegionRejected,
                }
            } else {
                PcCache::RegionCounting(*count + 1)
            },
            _ => {
                assert(self.pcs@ =~= self.pcs@.update(pc as int, self.pcs@[pc as int]));
                return ;
            },
        };
        self.pcs.set(pc, next);
    }

    /// The region of an instruction.
    pub fn region_at(&self, pc: usize) -> (region: Option<u64>)
        ensures
            region == match self.at(pc) {
                Some(cache) => region_of(cache),
                None => None,
            },
    {
        if pc >= self.pcs.len() {
            return None;
        }
        match &self.pcs[pc] {
            PcCache::Region(region) => Some(*region),
            _ => None,
        }
    }

    /// Whether an instruction takes part in compiling regions.
    pub fn is_region_site(&self, pc: usize) -> (site: bool)
        ensures
            site == match self.at(pc) {
                Some(cache) => counts_regions(cache),
                None => false,
            },
    {
        if pc >= self.pcs.len() {
            return false;
        }
        !matches!(self.pcs[pc], PcCache::Cold | PcCache::FieldRead(_))
    }

    /// Lets an instruction for which nothing is cached take part in compiling
    /// regions.
    pub fn register_region_candidate(&mut self, pc: usize)
        ensures
            final(self).pcs@ == if old(self).at(pc) == Some(PcCache::Cold) {
                old(self).pcs@.update(pc as int, PcCache::RegionCounting(0))
            } else {
                old(self).pcs@
            },
    {
        if pc < self.pcs.len() {
            let cold: bool = matches!(self.pcs[pc], PcCache::Cold);
            if cold {
                self.pcs.set(pc, PcCache::RegionCounting(0));
            }
        }
    }

    /// Whether the first instruction has a region.
    pub fn has_region_at_entry(&self) -> (found: bool)
        ensures
            found == (self.pcs@.len() > 0 && self.pcs@[0] is Region),
    {
        self.has_region_at(0)
    }

    /// Whether an instruction has a region.
    pub fn has_region_at(&self, pc: usize) -> (found: bool)
        ensures
            found == (pc < self.pcs@.len() && self.pcs@[pc as int] is Region),
    {
        pc < self.pcs.len() && matches!(self.pcs[pc], PcCache::Region(_))
    }

    /// The largest number of types that a field read of this procedure knows.
    pub fn widest_field_read(&self) -> (widest: usize)
        ensures
            is_widest(self.pcs@, widest as nat),
    {
        let mut widest: usize = 0;
        let mut at: usize = 0;
        while at < self.pcs.len()
            invariant
                at <= self.pcs@.len(),
                is_widest(self.pcs@.subrange(0, at as int), widest as nat),
            decreases self.pcs@.len() - at,
        {
            let ghost shorter = self.pcs@.subrange(0, at as int);
            let ghost longer = self.pcs@.subrange(0, at + 1);
            let ghost before = widest;
            if let PcCache::FieldRead(cache) = &self.pcs[at] {
                if cache.tracked_type_count() > widest {
                    widest = cache.tracked_type_count();
                }
            }
            proof {
                assert(longer =~= shorter.push(self.pcs@[at as int]));
                if widest > before {
                    assert(width_of(longer[at as int]) == widest);
                } else if widest > 0 {
                    let i = choose|i: int|
                        0 <= i < shorter.len() && #[trigger] width_of(shorter[i]) == widest;
                    assert(longer[i] == shorter[i]);
                    assert(width_of(longer[i]) == widest);
                }
                assert forall|i: int| 0 <= i < longer.len() implies #[trigger] width_of(longer[i])
                    <= widest by {
                    if i < at {
                        assert(longer[i] == shorter[i]);
                        assert(width_of(shorter[i]) <= before);
                    }
                }
            }
            at += 1;
        }
        assert(self.pcs@.subrange(0, at as int) =~= self.pcs@);
        widest
    }
}

/// How many types a cache knows.
pub open spec fn width_of(cache: PcCache) -> nat {
    match cache {
        PcCache::FieldRead(cache) => cache.types@.len(),
        _ => 0,
    }
}

/// Whether `widest` is the largest number of types that one of the caches knows.
pub open spec fn is_widest(pcs: Seq<PcCache>, widest: nat) -> bool {
    &&& forall|i: int| 0 <= i < pcs.len() ==> #[trigger] width_of(pcs[i]) <= widest
    &&& widest > 0 ==> exists|i: int| 0 <= i < pcs.len() && #[trigger] width_of(pcs[i]) == widest
}

/// The caches of all procedures, under a module's identity and a procedure.
pub struct ProgramSidecars {
    pub by_procedure: Table<ProcedureSidecar>,
}

/// The key of a procedure of a module.
pub open spec fn sidecar_key(module_identity: u64, procedure: ProcedureId) -> u128 {
    (module_identity as int * 0x1_0000_0000_0000_0000 + procedure.0 as int) as u128
}

pub(crate) fn key_for(module_identity: u64, procedure: ProcedureId) -> (key: u128)
    ensures
        key == sidecar_key(module_identity, procedure),
{
    (module_identity as u128) * 0x1_0000_0000_0000_0000 + procedure.0 as u128
}

/// Procedures of one module have keys of their own, and so have modules.
pub proof fn lemma_sidecar_keys(a: u64, p: ProcedureId, b: u64, q: ProcedureId)
    requires
        sidecar_key(a, p) == sidecar_key(b, q),
    ensures
        a == b,
        p == q,
{
}

impl ProgramSidecars {
    /// No caches.
    pub fn new() -> (sidecars: Self)
        ensures
            sidecars.by_procedure@ == Map::<u128, ProcedureSidecar>::empty(),
    {
        ProgramSidecars { by_procedure: Table::new() }
    }

    /// Drops every cache.
    pub fn clear(&mut self)
        ensures
            final(self).by_procedure@ == Map::<u128, ProcedureSidecar>::empty(),
    {
        self.by_procedure.clear();
    }

    /// Lends the caches of a procedure out, new ones on first use.
    pub fn resolve(
        &mut self,
        module_identity: u64,
        procedure: ProcedureId,
        instruction_count: usize,
    ) -> (sidecar: ProcedureSidecar)
        ensures
            ({
                let key = sidecar_key(module_identity, procedure);
                &&& if old(self).by_procedure@.contains_key(key) {
                    sidecar == old(self).by_procedure@[key]
                } else {
                    sidecar.pcs@ == Seq::new(instruction_count as nat, |i: int| PcCache::Cold)
                }
                &&& final(self).by_procedure@ == old(self).by_procedure@.remove(key)
            }),
    {
        match self.by_procedure.remove(key_for(module_identity, procedure)) {
            Some(sidecar) => sidecar,
            None => {
                assert(self.by_procedure@ =~= old(self).by_procedure@.remove(
                    sidecar_key(module_identity, procedure),
                ));
                ProcedureSidecar::new(instruction_count)
            },
        }
    }

    /// Takes the caches of a procedure back.
    pub fn give_back(
        &mut self,
        module_identity: u64,
        procedure: ProcedureId,
        sidecar: ProcedureSidecar,
    )
        ensures
            final(self).by_procedure@ == old(self).by_procedure@.insert(
                sidecar_key(module_identity, procedure),
                sidecar,
            ),
    {
        let _ = self.by_procedure.insert(key_for(module_identity, procedure), sidecar);
    }

    /// The largest number of types that one field read knows.
    pub fn widest_field_read_site(&self) -> (widest: usize)
        ensures
            forall|key: u128| #[trigger]
                self.by_procedure@.contains_key(key) ==> forall|i: int|
                    0 <= i < self.by_procedure@[key].pcs@.len() ==> #[trigger] width_of(
                        self.by_procedure@[key].pcs@[i],
                    ) <= widest,
            widest > 0 ==> exists|key: u128| #[trigger]
                self.by_procedure@.contains_key(key) && is_widest(
                    self.by_procedure@[key].pcs@,
                    widest as nat,
                ),
    {
        let count: usize = self.by_procedure.len();
        let ghost entries = self.by_procedure.seq();
        let mut widest: usize = 0;
        let mut at: usize = 0;
        while at < count
            invariant
                at <= count == entries.len(),
                entries == self.by_procedure.seq(),
                forall|e: int, i: int|
                    0 <= e < at && 0 <= i < (#[trigger] entries[e]).1.pcs@.len()
                        ==> #[trigger] width_of(entries[e].1.pcs@[i]) <= widest,
                widest > 0 ==> exists|key: u128| #[trigger]
                    self.by_procedure@.contains_key(key) && is_widest(
                        self.by_procedure@[key].pcs@,
                        widest as nat,
                    ),
            decreases count - at,
        {
            let (key, sidecar) = self.by_procedure.entry(at);
            let own: usize = sidecar.widest_field_read();
            if own > widest {
                widest = own;
                assert(self.by_procedure@.contains_key(key));
            }
            at += 1;
        }
        assert forall|key: u128| #[trigger] self.by_procedure@.contains_key(key) implies forall|i: int|
            0 <= i < self.by_procedure@[key].pcs@.len() ==> #[trigger] width_of(
                self.by_procedure@[key].pcs@[i],
            ) <= widest by {
            let e = choose|e: int| 0 <= e < entries.len() && (#[trigger] entries[e]).0 == key;
            assert(self.by_procedure@[key] == entries[e].1);
        }
        widest
    }

    /// Whether a procedure's first instruction has a region.
    pub fn region_installed(&self, module_identity: u64, procedure: ProcedureId) -> (found: bool)
        ensures
            found == ({
                let key = sidecar_key(module_identity, procedure);
                self.by_procedure@.contains_key(key) && self.by_procedure@[key].pcs@.len() > 0
                    && self.by_procedure@[key].pcs@[0] is Region
            }),
    {
        self.region_installed_at(module_identity, procedure, 0)
    }

    /// Whether an instruction of a procedure has a region.
    pub fn region_installed_at(&self, module_identity: u64, procedure: ProcedureId, pc: usize) -> (
    found: bool)
        ensures
            found == ({
                let key = sidecar_key(module_identity, procedure);
                self.by_procedure@.contains_key(key) && pc < self.by_procedure@[key].pcs@.len()
                    && self.by_procedure@[key].pcs@[pc as int] is Region
            }),
    {
        match self.by_procedure.get(key_for(module_identity, procedure)) {
            Some(sidecar) => sidecar.has_region_at(pc),
            None => false,
        }
    }
}

/// A region to compile.
#[derive(Clone, Copy, PartialEq, Eq, Structural, Debug)]
pub struct RegionCompileRequest {
    pub procedure: ProcedureId,
    pub module_identity: u64,
    pub entry_pc: usize,
}

/// What compiling a region gave.
#[derive(Clone, Copy, PartialEq, Eq, Structural, Debug)]
pub struct RegionCompileResult {
    pub procedure: ProcedureId,
    pub module_identity: u64,
    pub entry_pc: usize,
    pub region: Option<u64>,
}

/// Regions that are compiled elsewhere: what is still to be asked for, and what
/// came back.
pub struct AsyncRegionCompile {
    pub identity: u64,
    pub requests: Vec<RegionCompileRequest>,
    pub ready: Vec<RegionCompileResult>,
}

impl AsyncRegionCompile {
    /// Nothing asked for yet.
    pub fn new(module: &Module) -> (queue: Self)
        ensures
            queue.identity == module.identity,
            queue.requests@ == Seq::<RegionCompileRequest>::empty(),
            queue.ready@ == Seq::<RegionCompileResult>::empty(),
    {
        AsyncRegionCompile { identity: module.identity, requests: Vec::new(), ready: Vec::new() }
    }

    /// The module whose regions are compiled.
    pub fn module_identity(&self) -> (identity: u64)
        ensures
            identity == self.identity,
    {
        self.identity
    }

    /// Asks for the region of an instruction.
    pub fn enqueue(&mut self, procedure: ProcedureId, entry_pc: usize)
        ensures
            final(self).requests@ == old(self).requests@.push(
                RegionCompileRequest {
                    procedure,
                    module_identity: old(self).identity,
                    entry_pc,
                },
            ),
            final(self).identity == old(self).identity,
            final(self).ready == old(self).ready,
    {
        let request = RegionCompileRequest {
            procedure,
            module_identity: self.identity,
            entry_pc,
        };
        self.requests.push(request);
    }

    /// Hands the requests to who compiles them.
    pub fn take_requests(&mut self) -> (requests: Vec<RegionCompileRequest>)
        ensures
            requests@ == old(self).requests@,
            final(self).requests@ == Seq::<RegionCompileRequest>::empty(),
            final(self).identity == old(self).identity,
            final(self).ready == old(self).ready,
    {
        let mut requests: Vec<RegionCompileRequest> = Vec::new();
        core::mem::swap(&mut requests, &mut self.requests);
        requests
    }

    /// Takes a result in.
    pub fn deliver(&mut self, result: RegionCompileResult)
        ensures
            final(self).ready@ == old(self).ready@.push(result),
            final(self).identity == old(self).identity,
            final(self).requests == old(self).requests,
    {
        self.ready.push(result);
    }

    /// The results that came back, in the order they did.
    pub fn drain_ready(&mut self) -> (results: Vec<RegionCompileResult>)
        ensures
            results@ == old(self).ready@,
            final(self).ready@ == Seq::<RegionCompileResult>::empty(),
            final(self).identity == old(self).identity,
            final(self).requests == old(self).requests,
    {
        let mut results: Vec<RegionCompileResult> = Vec::new();
        core::mem::swap(&mut results, &mut self.ready);
        results
    }
}

/// A region that was rejected is never tried again, and one that was compiled
/// stays.
pub proof fn lemma_settled_stays(cache: PcCache, compiled: Option<u64>)
    requires
        cache is Region || cache is RegionRejected || cache is FieldRead,
    ensures
        polled(cache, compiled) == cache,
        !is_due(cache),
{
}

/// A region is tried at the poll that reaches the threshold, and at none before.
pub proof fn lemma_threshold(times: nat)
    ensures
        1 <= times < REGION_ENTRY_THRESHOLD ==> polled_times(PcCache::Cold, times)
            == PcCache::RegionCounting(times as u16),
        is_due(polled_times(PcCache::Cold, times)) <==> times + 1 == REGION_ENTRY_THRESHOLD,
    decreases times,
{
    if times > 0 {
        lemma_threshold((times - 1) as nat);
        if times >= REGION_ENTRY_THRESHOLD {
            lemma_rejected(times);
        }
    }
}

proof fn lemma_rejected(times: nat)
    requires
        times >= REGION_ENTRY_THRESHOLD,
    ensures
        polled_times(PcCache::Cold, times) == PcCache::RegionRejected,
    decreases times,
{
    if times == REGION_ENTRY_THRESHOLD {
        reveal_with_fuel(polled_times, 17);
    } else {
        lemma_rejected((times - 1) as nat);
    }
}

} // verus!

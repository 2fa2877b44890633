//! An allocator decorator that counts what passes through it.
use crate::allocation::Allocation;
use crate::allocation_requirements::AllocationRequirements;
use crate::composable_allocator::ComposableAllocator;
use crate::error::AllocatorError;
use crate::memory_properties::MemoryProperties;
use vstd::prelude::*;

verus! {

/// What a trace allocator records of the allocations it has seen.
#[derive(Copy, Clone, PartialEq, Eq, Debug, Structural)]
pub struct Metrics {
    /// How many allocations were made. The counter stops at the largest
    /// number it can hold.
    pub total_allocations: u32,
    /// How many allocations were made and not freed yet.
    pub leaked_allocations: u32,
    /// The largest size that was allocated.
    pub max_size: u64,
    /// The smallest size that was allocated.
    pub min_size: u64,
    /// The running mean of the sizes that were allocated, in whole numbers:
    /// with each allocation the mean so far counts for all allocations
    /// before, and the sum is divided by their number, rounding down.
    pub avg_size: u64,
}

impl Metrics {
    /// The metrics of an allocator that has seen nothing.
    pub open spec fn spec_new() -> Metrics {
        Metrics {
            total_allocations: 0,
            leaked_allocations: 0,
            max_size: 0,
            min_size: 0,
            avg_size: 0,
        }
    }

    /// A counter after one more was counted.
    pub open spec fn counted_up(counter: u32) -> u32 {
        if counter == u32::MAX {
            counter
        } else {
            (counter + 1) as u32
        }
    }

    /// The running mean after one more size: the mean of `count - 1` sizes
    /// whose mean is `mean` and of `size`, rounded down.
    pub open spec fn rolling_mean(mean: u64, size: u64, count: int) -> int {
        (mean * (count - 1) + size) / count
    }

    /// The metrics after an allocation of `size` bytes was made.
    pub open spec fn after_allocation(self, size: u64) -> Metrics {
        let n = Self::counted_up(self.total_allocations) as int;
        Metrics {
            total_allocations: Self::counted_up(self.total_allocations),
            leaked_allocations: Self::counted_up(self.leaked_allocations),
            max_size: if self.max_size >= size {
                self.max_size
            } else {
                size
            },
            min_size: if self.total_allocations == 0 || size < self.min_size {
                size
            } else {
                self.min_size
            },
            avg_size: Self::rolling_mean(self.avg_size, size, n) as u64,
        }
    }

    /// The metrics after an allocation was freed.
    pub open spec fn after_free(self) -> Metrics {
        Metrics {
            leaked_allocations: if self.leaked_allocations == 0 {
                0
            } else {
                (self.leaked_allocations - 1) as u32
            },
            ..self
        }
    }

    /// The metrics of an allocator that has seen nothing.
    pub fn new() -> (metrics: Self)
        ensures
            metrics == Self::spec_new(),
    {
        Metrics {
            total_allocations: 0,
            leaked_allocations: 0,
            max_size: 0,
            min_size: 0,
            avg_size: 0,
        }
    }

    /// Record that an allocation of `size` bytes was made.
    ///
    /// The mean of the sizes moves towards the new size and never past it:
    /// the first size is the mean of itself, and a size that equals the mean
    /// leaves the mean where it is.
    pub fn record_allocation(&mut self, size: u64)
        ensures
            *final(self) == old(self).after_allocation(size),
            final(self).total_allocations == 1 ==> final(self).avg_size == size,
            old(self).avg_size == size ==> final(self).avg_size == size,
            old(self).avg_size <= size ==> old(self).avg_size <= final(self).avg_size <= size,
            size <= old(self).avg_size ==> size <= final(self).avg_size <= old(self).avg_size,
    {
        let first = self.total_allocations == 0;
        if self.total_allocations < u32::MAX {
            self.total_allocations = self.total_allocations + 1;
        }
        if self.leaked_allocations < u32::MAX {
            self.leaked_allocations = self.leaked_allocations + 1;
        }
        if size > self.max_size {
            self.max_size = size;
        }
        if first || size < self.min_size {
            self.min_size = size;
        }
        let count = self.total_allocations as u128;
        proof {
            lemma_rolling_mean_is_between(self.avg_size, size, count as int);
            assert(self.avg_size * (count - 1) <= u64::MAX * u32::MAX) by (nonlinear_arith)
                requires
                    0 <= self.avg_size <= u64::MAX,
                    0 <= count - 1 <= u32::MAX,
            ;
        }
        let sum: u128 = self.avg_size as u128 * (count - 1) + size as u128;
        proof {
            if count == 1 {
                assert(self.avg_size * (count - 1) == 0) by (nonlinear_arith)
                    requires
                        count == 1,
                ;
            }
        }
        self.avg_size = (sum / count) as u64;
    }

    /// Record that an allocation was freed.
    pub fn record_free(&mut self)
        ensures
            *final(self) == old(self).after_free(),
    {
        if self.leaked_allocations > 0 {
            self.leaked_allocations = self.leaked_allocations - 1;
        }
    }
}

/// The running mean lies between the mean so far and the new size: it is
/// not below the smaller and not above the larger of the two.
pub proof fn lemma_rolling_mean_is_between(mean: u64, size: u64, count: int)
    requires
        count >= 1,
    ensures
        mean <= size ==> mean <= Metrics::rolling_mean(mean, size, count) <= size,
        size <= mean ==> size <= Metrics::rolling_mean(mean, size, count) <= mean,
        0 <= Metrics::rolling_mean(mean, size, count) <= u64::MAX,
{
    let sum = mean * (count - 1) + size;
    let low: int = if mean <= size {
        mean as int
    } else {
        size as int
    };
    let high: int = if mean <= size {
        size as int
    } else {
        mean as int
    };
    assert(low * count <= sum <= high * count) by (nonlinear_arith)
        requires
            count >= 1,
            low <= mean <= high,
            low <= size <= high,
            sum == mean * (count - 1) + size,
    ;
    assert(low <= sum / count <= high) by (nonlinear_arith)
        requires
            count >= 1,
            low * count <= sum <= high * count,
    ;
}

/// The running mean of equal sizes is that size.
pub proof fn lemma_rolling_mean_of_equal_sizes(size: u64, count: int)
    requires
        count >= 1,
    ensures
        Metrics::rolling_mean(size, size, count) == size,
{
    lemma_rolling_mean_is_between(size, size, count);
}

impl Default for Metrics {
    fn default() -> (metrics: Self)
        ensures
            metrics == Self::spec_new(),
    {
        Metrics::new()
    }
}

/// The metrics of the allocations of one memory type.
#[derive(Copy, Clone, PartialEq, Eq, Debug, Structural)]
pub struct TypeMetrics {
    pub memory_type_index: usize,
    pub metrics: Metrics,
}

/// What a trace allocator reports of one memory type.
#[derive(Copy, Clone, PartialEq, Eq, Debug)]
pub struct TypeReport {
    pub memory_type_index: usize,
    /// The property flags of the memory type, as raw bits, if the device
    /// has a memory type with this index.
    pub property_flags: Option<u32>,
    pub metrics: Metrics,
}

/// What a trace allocator reports when it is done.
#[derive(Debug)]
pub struct TraceReport {
    /// The name of the allocator.
    pub name: String,
    /// The metrics of all allocations.
    pub total: Metrics,
    /// The metrics of each memory type that was seen, in the order in
    /// which the memory types were first seen.
    pub per_type: Vec<TypeReport>,
}

/// The report on one memory type: its metrics, with the property flags that
/// the device gives for it.
pub open spec fn type_report(entry: TypeMetrics, properties: MemoryProperties) -> TypeReport {
    TypeReport {
        memory_type_index: entry.memory_type_index,
        property_flags: if entry.memory_type_index < properties.spec_types().len() {
            Some(properties.spec_types()[entry.memory_type_index as int].property_flags)
        } else {
            None
        },
        metrics: entry.metrics,
    }
}

/// The entry at `position` is the first one for the memory type.
pub open spec fn is_first_entry_for(
    entries: Seq<TypeMetrics>,
    position: int,
    memory_type_index: usize,
) -> bool {
    &&& 0 <= position < entries.len()
    &&& entries[position].memory_type_index == memory_type_index
    &&& forall|earlier: int|
        0 <= earlier < position ==> (#[trigger] entries[earlier]).memory_type_index
            != memory_type_index
}

/// The entries hold an entry for the memory type.
pub open spec fn has_entry_for(entries: Seq<TypeMetrics>, memory_type_index: usize) -> bool {
    exists|position: int| is_first_entry_for(entries, position, memory_type_index)
}

/// The position of the first entry for the memory type, if there is one.
pub open spec fn first_entry_for(entries: Seq<TypeMetrics>, memory_type_index: usize) -> int {
    choose|position: int| is_first_entry_for(entries, position, memory_type_index)
}

/// The metrics that the entries hold for a memory type: those of its first
/// entry, and the metrics of nothing where it has no entry.
pub open spec fn metrics_for(entries: Seq<TypeMetrics>, memory_type_index: usize) -> Metrics {
    if has_entry_for(entries, memory_type_index) {
        entries[first_entry_for(entries, memory_type_index)].metrics
    } else {
        Metrics::spec_new()
    }
}

/// No memory type has two entries.
pub open spec fn entries_are_distinct(entries: Seq<TypeMetrics>) -> bool {
    forall|one: int, other: int|
        0 <= one < other < entries.len() ==> (#[trigger] entries[one]).memory_type_index != (
        #[trigger] entries[other]).memory_type_index
}

/// The entries after the metrics of a memory type were set: the entry of
/// the memory type holds the new metrics where it is, and a memory type
/// that had no entry gets one behind the others.
pub open spec fn entries_with(
    entries: Seq<TypeMetrics>,
    memory_type_index: usize,
    metrics: Metrics,
) -> Seq<TypeMetrics> {
    let entry = TypeMetrics { memory_type_index, metrics };
    if has_entry_for(entries, memory_type_index) {
        entries.update(first_entry_for(entries, memory_type_index), entry)
    } else {
        entries.push(entry)
    }
}

/// A memory type has one first entry.
pub proof fn lemma_first_entry_is_unique(
    entries: Seq<TypeMetrics>,
    position: int,
    memory_type_index: usize,
)
    requires
        is_first_entry_for(entries, position, memory_type_index),
    ensures
        has_entry_for(entries, memory_type_index),
        first_entry_for(entries, memory_type_index) == position,
        metrics_for(entries, memory_type_index) == entries[position].metrics,
{
    let chosen = first_entry_for(entries, memory_type_index);
    assert(is_first_entry_for(entries, chosen, memory_type_index));
    if chosen < position {
        assert(entries[chosen].memory_type_index != memory_type_index);
    }
    if position < chosen {
        assert(entries[position].memory_type_index != memory_type_index);
    }
}

/// A memory type that no entry names has no entry.
proof fn lemma_no_entry(entries: Seq<TypeMetrics>, memory_type_index: usize)
    requires
        forall|position: int|
            0 <= position < entries.len() ==> (#[trigger] entries[position]).memory_type_index
                != memory_type_index,
    ensures
        !has_entry_for(entries, memory_type_index),
        metrics_for(entries, memory_type_index) == Metrics::spec_new(),
{
    assert forall|position: int| !is_first_entry_for(entries, position, memory_type_index) by {
        if 0 <= position < entries.len() {
            assert(entries[position].memory_type_index != memory_type_index);
        }
    }
}

/// Where an entry names a memory type, the memory type has a first entry.
proof fn lemma_some_entry_has_first(entries: Seq<TypeMetrics>, position: int, memory_type_index: usize)
    requires
        0 <= position < entries.len(),
        entries[position].memory_type_index == memory_type_index,
    ensures
        has_entry_for(entries, memory_type_index),
    decreases position,
{
    if exists|earlier: int|
        0 <= earlier < position && (#[trigger] entries[earlier]).memory_type_index
            == memory_type_index {
        let earlier = choose|earlier: int|
            0 <= earlier < position && (#[trigger] entries[earlier]).memory_type_index
                == memory_type_index;
        lemma_some_entry_has_first(entries, earlier, memory_type_index);
    } else {
        assert(is_first_entry_for(entries, position, memory_type_index));
    }
}

/// Entries that name the same memory types at the same positions, as far as
/// `changed` reaches, hold the metrics of `other` where `entries` does,
/// unless the entry of `other` is the one that differs.
proof fn lemma_same_types_same_metrics(
    entries: Seq<TypeMetrics>,
    changed: Seq<TypeMetrics>,
    other: usize,
)
    requires
        entries.len() <= changed.len(),
        forall|position: int|
            0 <= position < entries.len() ==> (#[trigger] changed[position]).memory_type_index
                == entries[position].memory_type_index,
        forall|position: int|
            0 <= position < entries.len() && entries[position].memory_type_index == other
                ==> #[trigger] changed[position] == entries[position],
        forall|position: int|
            entries.len() <= position < changed.len() ==> (
            #[trigger] changed[position]).memory_type_index != other,
    ensures
        metrics_for(changed, other) == metrics_for(entries, other),
        has_entry_for(changed, other) == has_entry_for(entries, other),
{
    if has_entry_for(entries, other) {
        let at = first_entry_for(entries, other);
        assert(is_first_entry_for(entries, at, other));
        assert forall|earlier: int| 0 <= earlier < at implies (
        #[trigger] changed[earlier]).memory_type_index != other by {
            assert(entries[earlier].memory_type_index != other);
        }
        assert(changed[at] == entries[at]);
        assert(is_first_entry_for(changed, at, other));
        lemma_first_entry_is_unique(changed, at, other);
    } else {
        assert forall|at: int| 0 <= at < changed.len() implies (
        #[trigger] changed[at]).memory_type_index != other by {
            if at < entries.len() && entries[at].memory_type_index == other {
                lemma_some_entry_has_first(entries, at, other);
            }
        }
        lemma_no_entry(changed, other);
    }
}

/// Setting the metrics of a memory type sets them for that memory type and
/// for no other, adds an entry only for a memory type that had none, and
/// keeps the entries distinct.
pub proof fn lemma_entries_with(
    entries: Seq<TypeMetrics>,
    memory_type_index: usize,
    metrics: Metrics,
    other: usize,
)
    ensures
        metrics_for(entries_with(entries, memory_type_index, metrics), other) == if other
            == memory_type_index {
            metrics
        } else {
            metrics_for(entries, other)
        },
        has_entry_for(entries_with(entries, memory_type_index, metrics), memory_type_index),
        entries_with(entries, memory_type_index, metrics).len() == entries.len()
            + if has_entry_for(entries, memory_type_index) {
            0int
        } else {
            1int
        },
        entries_are_distinct(entries) ==> entries_are_distinct(
            entries_with(entries, memory_type_index, metrics),
        ),
{
    let entry = TypeMetrics { memory_type_index, metrics };
    let changed = entries_with(entries, memory_type_index, metrics);
    if has_entry_for(entries, memory_type_index) {
        let at = first_entry_for(entries, memory_type_index);
        assert(is_first_entry_for(entries, at, memory_type_index));
        assert forall|earlier: int| 0 <= earlier < at implies (
        #[trigger] changed[earlier]).memory_type_index != memory_type_index by {
            assert(entries[earlier].memory_type_index != memory_type_index);
        }
        assert(is_first_entry_for(changed, at, memory_type_index));
        lemma_first_entry_is_unique(changed, at, memory_type_index);
        if other != memory_type_index {
            lemma_same_types_same_metrics(entries, changed, other);
        }
        if entries_are_distinct(entries) {
            assert forall|one: int, another: int| 0 <= one < another < changed.len() implies (
            #[trigger] changed[one]).memory_type_index != (
            #[trigger] changed[another]).memory_type_index by {
                assert(changed[one].memory_type_index == entries[one].memory_type_index);
                assert(changed[another].memory_type_index == entries[another].memory_type_index);
            }
        }
    } else {
        assert forall|position: int| 0 <= position < entries.len() implies (
        #[trigger] entries[position]).memory_type_index != memory_type_index by {
            if entries[position].memory_type_index == memory_type_index {
                lemma_some_entry_has_first(entries, position, memory_type_index);
            }
        }
        assert forall|earlier: int| 0 <= earlier < entries.len() implies (
        #[trigger] changed[earlier]).memory_type_index != memory_type_index by {
            assert(changed[earlier] == entries[earlier]);
        }
        assert(changed[entries.len() as int] == entry);
        assert(is_first_entry_for(changed, entries.len() as int, memory_type_index));
        lemma_first_entry_is_unique(changed, entries.len() as int, memory_type_index);
        if other != memory_type_index {
            assert forall|position: int| 0 <= position < entries.len() implies #[trigger] changed[position]
                == entries[position] by {}
            lemma_same_types_same_metrics(entries, changed, other);
        }
        if entries_are_distinct(entries) {
            assert forall|one: int, another: int| 0 <= one < another < changed.len() implies (
            #[trigger] changed[one]).memory_type_index != (
            #[trigger] changed[another]).memory_type_index by {
                assert(changed[one] == entries[one]);
                if another < entries.len() {
                    assert(changed[another] == entries[another]);
                }
            }
        }
    }
}

/// An allocator decorator which tracks metrics for all allocations made to
/// the wrapped allocator. It changes nothing of what the wrapped allocator
/// does.
pub struct TraceAllocator<T: ComposableAllocator> {
    wrapped_allocator: T,
    name: String,
    total: Metrics,
    per_type: Vec<TypeMetrics>,
    properties: MemoryProperties,
}

impl<T: ComposableAllocator> TraceAllocator<T> {
    /// The wrapped allocator.
    pub closed spec fn spec_wrapped(&self) -> T {
        self.wrapped_allocator
    }

    /// The metrics of all allocations.
    pub closed spec fn spec_total(&self) -> Metrics {
        self.total
    }

    /// The metrics of the allocations of each memory type that was seen.
    pub closed spec fn spec_per_type(&self) -> Seq<TypeMetrics> {
        self.per_type@
    }

    /// The name that the report is written under.
    pub closed spec fn spec_name(&self) -> Seq<char> {
        self.name@
    }

    /// The memory types of the device that the report describes.
    pub closed spec fn spec_properties(&self) -> MemoryProperties {
        self.properties
    }

    /// Decorate `wrapped_allocator`. `name` identifies the allocator in its
    /// report, and `properties` are the memory types of the device that the
    /// report describes.
    pub fn new(properties: MemoryProperties, wrapped_allocator: T, name: String) -> (trace: Self)
        ensures
            trace.spec_wrapped() == wrapped_allocator,
            trace.spec_total() == Metrics::spec_new(),
            trace.spec_per_type() == Seq::<TypeMetrics>::empty(),
            trace.spec_name() == name@,
            trace.spec_properties() == properties,
    {
        Self {
            wrapped_allocator,
            name,
            total: Metrics::new(),
            per_type: Vec::new(),
            properties,
        }
    }

    /// The wrapped allocator.
    pub fn wrapped_allocator(&self) -> (wrapped: &T)
        ensures
            *wrapped == self.spec_wrapped(),
    {
        &self.wrapped_allocator
    }

    /// The name that the report is written under.
    pub fn name(&self) -> (name: &String)
        ensures
            name@ == self.spec_name(),
    {
        &self.name
    }

    /// The metrics of all allocations.
    pub fn total(&self) -> (total: &Metrics)
        ensures
            *total == self.spec_total(),
    {
        &self.total
    }

    /// The metrics of the allocations of each memory type that was seen, in
    /// the order in which the memory types were first seen.
    pub fn per_type(&self) -> (per_type: &Vec<TypeMetrics>)
        ensures
            per_type@ == self.spec_per_type(),
    {
        &self.per_type
    }

    /// The memory types of the device that the report describes.
    pub fn properties(&self) -> (properties: &MemoryProperties)
        ensures
            *properties == self.spec_properties(),
    {
        &self.properties
    }

    /// The report of the allocator: its name, the metrics of all
    /// allocations, and for each memory type that was seen its metrics and
    /// the property flags that the device gives for it.
    pub fn report(&self) -> (report: TraceReport)
        ensures
            report.name@ == self.spec_name(),
            report.total == self.spec_total(),
            report.per_type@.len() == self.spec_per_type().len(),
            forall|position: int|
                0 <= position < report.per_type@.len() ==> #[trigger] report.per_type@[position]
                    == type_report(self.spec_per_type()[position], self.spec_properties()),
    {
        let types = self.properties.types();
        let mut per_type: Vec<TypeReport> = Vec::new();
        let mut position: usize = 0;
        while position < self.per_type.len()
            invariant
                position <= self.per_type@.len(),
                types@ == self.properties.spec_types(),
                per_type@.len() == position,
                forall|earlier: int|
                    0 <= earlier < position ==> #[trigger] per_type@[earlier] == type_report(
                        self.per_type@[earlier],
                        self.properties,
                    ),
            decreases self.per_type@.len() - position,
        {
            let entry = self.per_type[position];
            let property_flags = if entry.memory_type_index < types.len() {
                Some(types[entry.memory_type_index].property_flags)
            } else {
                None
            };
            per_type.push(
                TypeReport {
                    memory_type_index: entry.memory_type_index,
                    property_flags,
                    metrics: entry.metrics,
                },
            );
            position = position + 1;
        }
        TraceReport { name: self.name.clone(), total: self.total, per_type }
    }

    /// The position of the first entry for a memory type, if there is one.
    fn find_entry(&self, memory_type_index: usize) -> (found: Option<usize>)
        ensures
            match found {
                Some(position) => is_first_entry_for(
                    self.spec_per_type(),
                    position as int,
                    memory_type_index,
                ),
                None => !has_entry_for(self.spec_per_type(), memory_type_index),
            },
    {
        let mut position: usize = 0;
        while position < self.per_type.len()
            invariant
                position <= self.per_type@.len(),
                forall|earlier: int|
                    0 <= earlier < position ==> (#[trigger] self.per_type@[earlier]).memory_type_index
                        != memory_type_index,
            decreases self.per_type@.len() - position,
        {
            if self.per_type[position].memory_type_index == memory_type_index {
                return Some(position);
            }
            position = position + 1;
        }
        proof {
            lemma_no_entry(self.per_type@, memory_type_index);
        }
        None
    }

    /// Count an allocation of `size` bytes of a memory type, or, with no
    /// size, that an allocation of the memory type was freed: for all
    /// memory types together and for the memory type itself.
    fn record(&mut self, memory_type_index: usize, allocated: Option<u64>)
        ensures
            final(self).spec_wrapped() == old(self).spec_wrapped(),
            final(self).spec_name() == old(self).spec_name(),
            final(self).spec_properties() == old(self).spec_properties(),
            final(self).spec_total() == match allocated {
                Some(size) => old(self).spec_total().after_allocation(size),
                None => old(self).spec_total().after_free(),
            },
            final(self).spec_per_type() == entries_with(
                old(self).spec_per_type(),
                memory_type_index,
                match allocated {
                    Some(size) => metrics_for(
                        old(self).spec_per_type(),
                        memory_type_index,
                    ).after_allocation(size),
                    None => metrics_for(old(self).spec_per_type(), memory_type_index).after_free(),
                },
            ),
    {
        match allocated {
            Some(size) => self.total.record_allocation(size),
            None => self.total.record_free(),
        }
        let found = self.find_entry(memory_type_index);
        let mut metrics = match found {
            Some(position) => {
                proof {
                    lemma_first_entry_is_unique(
                        self.per_type@,
                        position as int,
                        memory_type_index,
                    );
                }
                self.per_type[position].metrics
            },
            None => Metrics::new(),
        };
        match allocated {
            Some(size) => metrics.record_allocation(size),
            None => metrics.record_free(),
        }
        match found {
            Some(position) => {
                self.per_type.set(position, TypeMetrics { memory_type_index, metrics });
            },
            None => {
                self.per_type.push(TypeMetrics { memory_type_index, metrics });
            },
        }
    }
}

/// The metrics of every memory type after an allocation of `size` bytes of
/// one of them was counted, or after a free was.
proof fn lemma_recorded(
    entries: Seq<TypeMetrics>,
    memory_type_index: usize,
    metrics: Metrics,
)
    ensures
        entries_are_distinct(entries) ==> entries_are_distinct(
            entries_with(entries, memory_type_index, metrics),
        ),
        forall|other: usize| #[trigger]
            metrics_for(entries_with(entries, memory_type_index, metrics), other) == if other
                == memory_type_index {
                metrics
            } else {
                metrics_for(entries, other)
            },
{
    lemma_entries_with(entries, memory_type_index, metrics, memory_type_index);
    assert forall|other: usize| #[trigger]
        metrics_for(entries_with(entries, memory_type_index, metrics), other) == if other
            == memory_type_index {
            metrics
        } else {
            metrics_for(entries, other)
        } by {
        lemma_entries_with(entries, memory_type_index, metrics, other);
    }
}

impl<T: ComposableAllocator> ComposableAllocator for TraceAllocator<T> {
    /// The wrapped allocator is well-formed, and no memory type is counted
    /// twice.
    open spec fn wf(&self) -> bool {
        self.spec_wrapped().wf() && entries_are_distinct(self.spec_per_type())
    }

    open spec fn accepts(&self, requirements: AllocationRequirements) -> bool {
        self.spec_wrapped().accepts(requirements)
    }

    /// The wrapped allocator allocates, and its result is handed on. A
    /// request that it grants is counted, for all memory types together and
    /// for its own; a memory type that is seen for the first time gets its
    /// entry behind the others. A request that it refuses is not counted:
    /// the metrics stay as they were.
    open spec fn allocates(
        &self,
        requirements: AllocationRequirements,
        after: &Self,
        result: Result<Allocation, AllocatorError>,
    ) -> bool {
        let size = requirements.size_in_bytes;
        let memory_type_index = requirements.memory_type_index;
        &&& self.spec_wrapped().allocates(requirements, &after.spec_wrapped(), result)
        &&& after.spec_name() == self.spec_name()
        &&& after.spec_properties() == self.spec_properties()
        &&& if result is Ok {
            &&& after.spec_total() == self.spec_total().after_allocation(size)
            &&& after.spec_per_type() == entries_with(
                self.spec_per_type(),
                memory_type_index,
                metrics_for(self.spec_per_type(), memory_type_index).after_allocation(size),
            )
            &&& forall|other: usize| #[trigger]
                metrics_for(after.spec_per_type(), other) == if other == memory_type_index {
                    metrics_for(self.spec_per_type(), other).after_allocation(size)
                } else {
                    metrics_for(self.spec_per_type(), other)
                }
        } else {
            &&& after.spec_total() == self.spec_total()
            &&& after.spec_per_type() == self.spec_per_type()
        }
    }

    /// The free is counted, for all memory types together and for the
    /// allocation's own, and the wrapped allocator frees. A memory type that
    /// is seen for the first time gets its entry behind the others.
    open spec fn frees(&self, allocation: Allocation, after: &Self) -> bool {
        let memory_type_index = allocation@.memory_type_index;
        &&& self.spec_wrapped().frees(allocation, &after.spec_wrapped())
        &&& after.spec_name() == self.spec_name()
        &&& after.spec_properties() == self.spec_properties()
        &&& after.spec_total() == self.spec_total().after_free()
        &&& after.spec_per_type() == entries_with(
            self.spec_per_type(),
            memory_type_index,
            metrics_for(self.spec_per_type(), memory_type_index).after_free(),
        )
        &&& forall|other: usize| #[trigger]
            metrics_for(after.spec_per_type(), other) == if other == memory_type_index {
                metrics_for(self.spec_per_type(), other).after_free()
            } else {
                metrics_for(self.spec_per_type(), other)
            }
    }

    fn allocate(&mut self, requirements: AllocationRequirements) -> (result: Result<
        Allocation,
        AllocatorError,
    >) {
        let result = self.wrapped_allocator.allocate(requirements);
        if result.is_ok() {
            proof {
                lemma_recorded(
                    self.per_type@,
                    requirements.memory_type_index,
                    metrics_for(self.per_type@, requirements.memory_type_index).after_allocation(
                        requirements.size_in_bytes,
                    ),
                );
            }
            self.record(requirements.memory_type_index, Some(requirements.size_in_bytes));
        }
        result
    }

    fn free(&mut self, allocation: Allocation) {
        proof {
            lemma_recorded(
                self.per_type@,
                allocation@.memory_type_index,
                metrics_for(self.per_type@, allocation@.memory_type_index).after_free(),
            );
        }
        self.record(allocation.memory_type_index(), None);
        self.wrapped_allocator.free(allocation)
    }
}

} // verus!

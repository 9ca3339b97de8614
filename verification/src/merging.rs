//! Fan-in of any number of streams into one, in arrival order.

use crate::flow::Flow;
use vstd::prelude::*;

verus! {

/// How many entries of `order` name `source`.
pub open spec fn count_source(order: Seq<usize>, source: usize) -> nat
    decreases order.len(),
{
    if order.len() == 0 {
        0
    } else {
        count_source(order.drop_last(), source) + if order.last() == source {
            1nat
        } else {
            0nat
        }
    }
}

/// One entry for every value of every source, source after source.
pub open spec fn drain_order(lens: Seq<nat>) -> Seq<usize>
    decreases lens.len(),
{
    if lens.len() == 0 {
        Seq::empty()
    } else {
        drain_order(lens.drop_last()) + Seq::new(lens.last(), |i: int| (lens.len() - 1) as usize)
    }
}

/// The complete arrival order of one collection: the given entries, then what
/// is left of each source, source after source. An entry that names no source,
/// or a source that is exhausted, delivers nothing.
pub open spec fn merge_arrivals(order: Seq<usize>, lens: Seq<nat>) -> Seq<usize> {
    order + drain_order(lens)
}

/// How many values source number `source`, which holds `available` values,
/// has delivered once `order` has been played.
pub open spec fn delivered_from(order: Seq<usize>, source: int, available: nat) -> nat {
    if count_source(order, source as usize) <= available {
        count_source(order, source as usize)
    } else {
        available
    }
}

/// Whether the last entry of a non-empty `order` delivers a value.
pub open spec fn delivers<T>(sources: Seq<Seq<T>>, order: Seq<usize>) -> bool {
    let source = order.last();
    source < sources.len() && count_source(order.drop_last(), source) < sources[source as int].len()
}

/// What `merge` delivers when its sources deliver in `order`: each entry hands
/// on the next value of the source it names.
pub open spec fn merged<T>(sources: Seq<Seq<T>>, order: Seq<usize>) -> Seq<T>
    decreases order.len(),
{
    if order.len() == 0 {
        Seq::empty()
    } else {
        let earlier = merged(sources, order.drop_last());
        if delivers(sources, order) {
            earlier.push(
                sources[order.last() as int][count_source(order.drop_last(), order.last()) as int],
            )
        } else {
            earlier
        }
    }
}

/// For each value that `merged` delivers, the source it came from.
pub open spec fn origins<T>(sources: Seq<Seq<T>>, order: Seq<usize>) -> Seq<usize>
    decreases order.len(),
{
    if order.len() == 0 {
        Seq::empty()
    } else {
        let earlier = origins(sources, order.drop_last());
        if delivers(sources, order) {
            earlier.push(order.last())
        } else {
            earlier
        }
    }
}

/// The views of the given streams.
pub open spec fn sources_of<T>(flows: Seq<Flow<T>>) -> Seq<Seq<T>> {
    Seq::new(flows.len(), |k: int| flows[k]@)
}

/// The number of values in each source.
pub open spec fn lens_of<T>(sources: Seq<Seq<T>>) -> Seq<nat> {
    Seq::new(sources.len(), |k: int| sources[k].len())
}

/// Appending an entry for `source` raises its count by one and leaves the
/// other counts alone.
pub proof fn lemma_count_source_push(order: Seq<usize>, entry: usize, source: usize)
    ensures
        count_source(order.push(entry), source) == count_source(order, source) + if entry
            == source {
            1nat
        } else {
            0nat
        },
{
    assert(order.push(entry).drop_last() =~= order);
}

/// The drain entries as a vector, appended to `order`.
fn full_order<T>(order: Vec<usize>, stacks: &Vec<Vec<T>>) -> (full: Vec<usize>)
    ensures
        full@ == merge_arrivals(order@, Seq::new(stacks@.len(), |k: int| stacks@[k]@.len())),
{
    let ghost given = order@;
    let ghost lens = Seq::new(stacks@.len(), |k: int| stacks@[k]@.len());
    let mut full = order;
    let mut s: usize = 0;
    proof {
        assert(lens.take(0) =~= Seq::<nat>::empty());
        assert(full@ =~= given + drain_order(lens.take(0)));
    }
    while s < stacks.len()
        invariant
            s <= stacks.len(),
            lens == Seq::new(stacks@.len(), |k: int| stacks@[k]@.len()),
            full@ == given + drain_order(lens.take(s as int)),
        decreases stacks.len() - s,
    {
        let n = stacks[s].len();
        let ghost before = full@;
        let mut i: usize = 0;
        while i < n
            invariant
                i <= n,
                full@ == before + Seq::new(i as nat, |k: int| s),
            decreases n - i,
        {
            full.push(s);
            i = i + 1;
            proof {
                assert(full@ =~= before + Seq::new(i as nat, |k: int| s));
            }
        }
        proof {
            let next = lens.take(s + 1);
            assert(next.drop_last() =~= lens.take(s as int));
            assert(next.last() == n);
            assert(Seq::new(n as nat, |k: int| s) =~= Seq::new(
                next.last(),
                |k: int| (next.len() - 1) as usize,
            ));
            assert(full@ =~= given + drain_order(next));
        }
        s = s + 1;
    }
    proof {
        assert(lens.take(lens.len() as int) =~= lens);
    }
    full
}

/// Each stream as a stack with its earliest value on top.
fn into_stacks<T>(flows: Vec<Flow<T>>) -> (stacks: Vec<Vec<T>>)
    ensures
        stacks@.len() == flows@.len(),
        forall|k: int| 0 <= k < flows@.len() ==> (#[trigger] stacks@[k])@ == flows@[k]@.reverse(),
{
    let ghost input = flows@;
    let mut stacks: Vec<Vec<T>> = Vec::new();
    for flow in it: flows.into_iter()
        invariant
            it.seq() == input,
            stacks@.len() == it.index(),
            forall|k: int| 0 <= k < stacks@.len() ==> (#[trigger] stacks@[k])@ == input[k]@.reverse(),
    {
        stacks.push(flow.into_reversed());
    }
    stacks
}

/// Delivers the values of all `flows` in the order in which they arrive.
/// `order` names, arrival by arrival, the stream that delivers; what it
/// leaves out arrives afterwards, stream after stream. Every value of every
/// stream is delivered once, and the values of one stream keep their order.
pub fn merge<T>(flows: Vec<Flow<T>>, order: Vec<usize>) -> (out: Flow<T>)
    ensures
        out@ == merged(
            sources_of(flows@),
            merge_arrivals(order@, lens_of(sources_of(flows@))),
        ),
{
    let ghost sources = sources_of(flows@);
    let mut stacks = into_stacks(flows);
    proof {
        assert(Seq::new(stacks@.len(), |k: int| stacks@[k]@.len()) =~= lens_of(sources));
    }
    let full = full_order(order, &stacks);
    let mut out: Vec<T> = Vec::new();
    let mut k: usize = 0;
    while k < full.len()
        invariant
            k <= full.len(),
            stacks@.len() == sources.len(),
            forall|s: int|
                0 <= s < sources.len() ==> stacks@[s]@.len() + #[trigger] delivered_from(
                    full@.take(k as int),
                    s,
                    sources[s].len(),
                ) == sources[s].len(),
            forall|s: int, m: int|
                0 <= s < sources.len() && 0 <= m < stacks@[s]@.len() ==> (#[trigger] stacks@[s]@[m])
                    == sources[s][sources[s].len() - 1 - m],
            out@ == merged(sources, full@.take(k as int)),
        decreases full.len() - k,
    {
        let ghost before = full@.take(k as int);
        let source = full[k];
        let live = stacks.len();
        proof {
            assert(full@.take(k + 1) =~= before.push(source));
            assert(full@.take(k + 1).drop_last() =~= before);
            assert forall|s: int| 0 <= s < sources.len() implies #[trigger] delivered_from(
                full@.take(k + 1),
                s,
                sources[s].len(),
            ) == if source == s && delivered_from(before, s, sources[s].len()) < sources[s].len() {
                delivered_from(before, s, sources[s].len()) + 1
            } else {
                delivered_from(before, s, sources[s].len())
            } by {
                assert(s < live);
                lemma_count_source_push(before, source, s as usize);
            }
        }
        if source < stacks.len() {
            let ghost old_stacks = stacks@;
            let ghost held = sources[source as int].len();
            let ghost sent = delivered_from(before, source as int, held);
            let popped = stacks[source].pop();
            proof {
                assert(forall|s: int|
                    0 <= s < sources.len() && s != source ==> stacks@[s] == old_stacks[s]);
                assert(old_stacks[source as int]@.len() + sent == held);
            }
            match popped {
                Some(value) => {
                    proof {
                        let top = old_stacks[source as int]@.len() - 1;
                        assert(value == old_stacks[source as int]@[top]);
                        assert(sent == count_source(before, source));
                        assert(delivers(sources, full@.take(k + 1)));
                    }
                    out.push(value);
                },
                None => {
                    proof {
                        assert(sent == held);
                        assert(!delivers(sources, full@.take(k + 1)));
                    }
                },
            }
        } else {
            proof {
                assert(!delivers(sources, full@.take(k + 1)));
            }
        }
        k = k + 1;
    }
    proof {
        assert(full@.take(full@.len() as int) =~= full@);
    }
    Flow::from_vec(out)
}

/// The values of `values` whose origin is `source`, in order.
pub open spec fn from_source<T>(values: Seq<T>, origin: Seq<usize>, source: usize) -> Seq<T>
    decreases values.len(),
{
    if values.len() == 0 || origin.len() == 0 {
        Seq::empty()
    } else {
        let earlier = from_source(values.drop_last(), origin.drop_last(), source);
        if origin.last() == source {
            earlier.push(values.last())
        } else {
            earlier
        }
    }
}

/// The number of values in all of `sources` together.
pub open spec fn total_len<T>(sources: Seq<Seq<T>>) -> nat
    decreases sources.len(),
{
    if sources.len() == 0 {
        0
    } else {
        total_len(sources.drop_last()) + sources.last().len()
    }
}

/// The number of values that the first `upto` sources have delivered together
/// once `order` has been played.
pub open spec fn delivered_total<T>(sources: Seq<Seq<T>>, order: Seq<usize>, upto: nat) -> nat
    decreases upto,
{
    if upto == 0 {
        0
    } else {
        delivered_total(sources, order, (upto - 1) as nat) + delivered_from(
            order,
            upto - 1,
            sources[upto - 1].len(),
        )
    }
}

proof fn lemma_count_source_concat(front: Seq<usize>, back: Seq<usize>, source: usize)
    ensures
        count_source(front + back, source) == count_source(front, source) + count_source(
            back,
            source,
        ),
    decreases back.len(),
{
    if back.len() == 0 {
        assert(front + back =~= front);
    } else {
        lemma_count_source_concat(front, back.drop_last(), source);
        assert((front + back).drop_last() =~= front + back.drop_last());
    }
}

proof fn lemma_count_source_constant(len: nat, entry: usize, source: usize)
    ensures
        count_source(Seq::new(len, |i: int| entry), source) == if entry == source {
            len
        } else {
            0
        },
    decreases len,
{
    if len > 0 {
        lemma_count_source_constant((len - 1) as nat, entry, source);
        assert(Seq::new(len, |i: int| entry).drop_last() =~= Seq::new(
            (len - 1) as nat,
            |i: int| entry,
        ));
    }
}

proof fn lemma_count_source_drain(lens: Seq<nat>, source: usize)
    requires
        lens.len() <= usize::MAX,
    ensures
        count_source(drain_order(lens), source) == if source < lens.len() {
            lens[source as int]
        } else {
            0
        },
    decreases lens.len(),
{
    if lens.len() > 0 {
        let front = lens.drop_last();
        let last = (lens.len() - 1) as usize;
        lemma_count_source_drain(front, source);
        lemma_count_source_constant(lens.last(), last, source);
        lemma_count_source_concat(
            drain_order(front),
            Seq::new(lens.last(), |i: int| last),
            source,
        );
    }
}

proof fn lemma_merged_prefix<T>(sources: Seq<Seq<T>>, order: Seq<usize>, source: usize)
    requires
        source < sources.len(),
    ensures
        origins(sources, order).len() == merged(sources, order).len(),
        from_source(merged(sources, order), origins(sources, order), source)
            == sources[source as int].take(
            delivered_from(order, source as int, sources[source as int].len()) as int,
        ),
    decreases order.len(),
{
    let held = sources[source as int];
    if order.len() == 0 {
        assert(held.take(0) =~= Seq::<T>::empty());
    } else {
        let before = order.drop_last();
        lemma_merged_prefix(sources, before, source);
        let values = merged(sources, order);
        let origin = origins(sources, order);
        if delivers(sources, order) {
            assert(values.drop_last() =~= merged(sources, before));
            assert(origin.drop_last() =~= origins(sources, before));
            if order.last() == source {
                let sent = count_source(before, source);
                assert(held.take(sent as int + 1) =~= held.take(sent as int).push(held[sent as int]));
            }
        }
    }
}

proof fn lemma_delivered_total_step<T>(sources: Seq<Seq<T>>, order: Seq<usize>, upto: nat)
    requires
        order.len() > 0,
        upto <= sources.len() <= usize::MAX,
    ensures
        delivered_total(sources, order, upto) == delivered_total(
            sources,
            order.drop_last(),
            upto,
        ) + if order.last() < upto && delivers(sources, order) {
            1nat
        } else {
            0nat
        },
    decreases upto,
{
    if upto > 0 {
        lemma_delivered_total_step(sources, order, (upto - 1) as nat);
        assert(order.drop_last().push(order.last()) =~= order);
        lemma_count_source_push(order.drop_last(), order.last(), (upto - 1) as usize);
    }
}

proof fn lemma_merged_len<T>(sources: Seq<Seq<T>>, order: Seq<usize>)
    requires
        sources.len() <= usize::MAX,
    ensures
        merged(sources, order).len() == delivered_total(sources, order, sources.len()),
    decreases order.len(),
{
    if order.len() == 0 {
        assert(order =~= Seq::<usize>::empty());
        lemma_delivered_total_none(sources, sources.len());
    } else {
        lemma_merged_len(sources, order.drop_last());
        lemma_delivered_total_step(sources, order, sources.len());
    }
}

proof fn lemma_delivered_total_none<T>(sources: Seq<Seq<T>>, upto: nat)
    ensures
        delivered_total(sources, Seq::<usize>::empty(), upto) == 0,
    decreases upto,
{
    if upto > 0 {
        lemma_delivered_total_none(sources, (upto - 1) as nat);
    }
}

proof fn lemma_delivered_total_all<T>(sources: Seq<Seq<T>>, order: Seq<usize>, upto: nat)
    requires
        upto <= sources.len() <= usize::MAX,
        forall|s: int|
            0 <= s < sources.len() ==> #[trigger] delivered_from(order, s, sources[s].len())
                == sources[s].len(),
    ensures
        delivered_total(sources, order, upto) == total_len(sources.take(upto as int)),
    decreases upto,
{
    if upto > 0 {
        lemma_delivered_total_all(sources, order, (upto - 1) as nat);
        assert(sources.take(upto as int).drop_last() =~= sources.take(upto - 1));
    }
}

/// Whatever the arrival order, `merge` delivers every value of every source
/// exactly once: the values that come from one source are that source, in its
/// own order, and the number of values delivered is the sum of the sources'
/// lengths.
pub proof fn lemma_merge_keeps_every_source<T>(sources: Seq<Seq<T>>, order: Seq<usize>)
    requires
        sources.len() <= usize::MAX,
    ensures
        merged(sources, merge_arrivals(order, lens_of(sources))).len() == total_len(sources),
        origins(sources, merge_arrivals(order, lens_of(sources))).len() == total_len(sources),
        forall|source: usize|
            source < sources.len() ==> #[trigger] from_source(
                merged(sources, merge_arrivals(order, lens_of(sources))),
                origins(sources, merge_arrivals(order, lens_of(sources))),
                source,
            ) == sources[source as int],
{
    let lens = lens_of(sources);
    let full = merge_arrivals(order, lens);
    assert forall|s: int| 0 <= s < sources.len() implies #[trigger] delivered_from(
        full,
        s,
        sources[s].len(),
    ) == sources[s].len() by {
        lemma_count_source_concat(order, drain_order(lens), s as usize);
        lemma_count_source_drain(lens, s as usize);
    }
    lemma_merged_len(sources, full);
    lemma_delivered_total_all(sources, full, sources.len());
    assert(sources.take(sources.len() as int) =~= sources);
    assert forall|source: usize| source < sources.len() implies #[trigger] from_source(
        merged(sources, full),
        origins(sources, full),
        source,
    ) == sources[source as int] by {
        lemma_merged_prefix(sources, full, source);
        assert(delivered_from(full, source as int, sources[source as int].len())
            == sources[source as int].len());
        assert(sources[source as int].take(sources[source as int].len() as int)
            =~= sources[source as int]);
    }
    if sources.len() > 0 {
        lemma_merged_prefix(sources, full, 0);
    } else {
        lemma_origins_len(sources, full);
    }
}

proof fn lemma_origins_len<T>(sources: Seq<Seq<T>>, order: Seq<usize>)
    ensures
        origins(sources, order).len() == merged(sources, order).len(),
    decreases order.len(),
{
    if order.len() > 0 {
        lemma_origins_len(sources, order.drop_last());
    }
}

} // verus!

//! Recently published objects, kept for subscribers that ask for them again.

use crate::proto::{MoqObject, ObjectView, MEDIA_TYPE_INIT};
use std::collections::{BTreeMap, VecDeque};
use std::sync::Arc;
use vstd::prelude::*;
use vstd::std_specs::iter::IteratorSpec;

verus! {

/// Limits of a retransmission buffer.
#[derive(Debug, Clone, Copy)]
pub struct RetransmissionBufferConfig {
    /// Most objects to keep.
    pub max_objects: usize,
    /// Most bytes to keep.
    pub max_bytes: usize,
    /// Whether objects of low priority make room first. Otherwise the oldest do.
    pub priority_eviction: bool,
}

impl Default for RetransmissionBufferConfig {
    fn default() -> (c: Self)
        ensures
            c == (RetransmissionBufferConfig {
                max_objects: 100,
                max_bytes: 52_428_800,
                priority_eviction: true,
            }),
    {
        RetransmissionBufferConfig {
            max_objects: 100,
            max_bytes: 52_428_800,
            priority_eviction: true,
        }
    }
}

/// Counters of a retransmission buffer.
#[derive(Debug, Clone, Copy)]
pub struct BufferStats {
    pub total_objects: usize,
    pub total_bytes: usize,
    pub evictions: u64,
    pub hits: u64,
    pub misses: u64,
}

impl Default for BufferStats {
    fn default() -> (s: Self)
        ensures
            s == (BufferStats {
                total_objects: 0,
                total_bytes: 0,
                evictions: 0,
                hits: 0,
                misses: 0,
            }),
    {
        BufferStats { total_objects: 0, total_bytes: 0, evictions: 0, hits: 0, misses: 0 }
    }
}

/// Counters, as mathematical values.
pub struct StatsView {
    pub total_objects: nat,
    pub total_bytes: nat,
    pub evictions: nat,
    pub hits: nat,
    pub misses: nat,
}

impl View for BufferStats {
    type V = StatsView;

    open spec fn view(&self) -> StatsView {
        StatsView {
            total_objects: self.total_objects as nat,
            total_bytes: self.total_bytes as nat,
            evictions: self.evictions as nat,
            hits: self.hits as nat,
            misses: self.misses as nat,
        }
    }
}

/// The bytes that an object is charged for: payload, name, and the object itself.
pub open spec fn object_size(o: ObjectView) -> nat {
    o.data.len() + vstd::utf8::encode_utf8(o.name).len() + vstd::layout::size_of::<MoqObject>()
}

/// The bytes that some objects are charged for together.
pub open spec fn total_size(objects: Seq<ObjectView>) -> nat
    decreases objects.len(),
{
    if objects.len() == 0 {
        0
    } else {
        total_size(objects.drop_last()) + object_size(objects.last())
    }
}

/// Whether an object is the initialization segment of its stream.
pub open spec fn is_init(o: ObjectView) -> bool {
    o.group_id == MEDIA_TYPE_INIT
}

/// Whether the object at `i` is the one to give up next: the oldest, or, where priority
/// counts, the newest of those with the lowest priority.
pub open spec fn is_victim(objects: Seq<ObjectView>, by_priority: bool, i: int) -> bool {
    &&& 0 <= i < objects.len()
    &&& if by_priority {
        &&& forall|j: int|
            0 <= j < objects.len() ==> objects[i].priority <= (#[trigger] objects[j]).priority
        &&& forall|j: int|
            i < j < objects.len() ==> objects[i].priority < (#[trigger] objects[j]).priority
    } else {
        i == 0
    }
}

/// The place of the object to give up next.
pub open spec fn victim(objects: Seq<ObjectView>, by_priority: bool) -> int {
    choose|i: int| is_victim(objects, by_priority, i)
}

/// Whether the limits leave no place for `needed` more bytes.
pub open spec fn is_full(
    objects: Seq<ObjectView>,
    config: RetransmissionBufferConfig,
    needed: nat,
) -> bool {
    ||| objects.len() >= config.max_objects
    ||| total_size(objects) + needed > config.max_bytes
}

/// Whether an object has a place in a buffer at all: one that is larger than all that the buffer
/// may hold has none, and none has one where nothing may be held.
pub open spec fn can_hold(config: RetransmissionBufferConfig, o: ObjectView) -> bool {
    &&& config.max_objects >= 1
    &&& object_size(o) <= config.max_bytes
}

/// What is left once enough objects have been given up for `needed` more bytes.
pub open spec fn make_room(
    objects: Seq<ObjectView>,
    config: RetransmissionBufferConfig,
    needed: nat,
) -> Seq<ObjectView>
    decreases objects.len(),
{
    if objects.len() > 0 && is_full(objects, config, needed) {
        let v = victim(objects, config.priority_eviction);
        if 0 <= v < objects.len() {
            make_room(objects.remove(v), config, needed)
        } else {
            objects
        }
    } else {
        objects
    }
}

/// There is an object to give up wherever there is an object.
proof fn lemma_victim_exists(objects: Seq<ObjectView>, by_priority: bool)
    requires
        objects.len() > 0,
    ensures
        is_victim(objects, by_priority, victim(objects, by_priority)),
    decreases objects.len(),
{
    if !by_priority {
        assert(is_victim(objects, by_priority, 0));
    } else if objects.len() == 1 {
        assert(is_victim(objects, by_priority, 0));
    } else {
        let front = objects.drop_last();
        lemma_victim_exists(front, by_priority);
        let v = victim(front, by_priority);
        let last = objects.len() - 1;
        assert(front[v] == objects[v]);
        assert forall|j: int| 0 <= j < last implies objects[v].priority <= (
        #[trigger] objects[j]).priority by {
            assert(front[j] == objects[j]);
        }
        assert forall|j: int| v < j < last implies objects[v].priority < (
        #[trigger] objects[j]).priority by {
            assert(front[j] == objects[j]);
        }
        if objects[last].priority <= objects[v].priority {
            assert(is_victim(objects, by_priority, last));
        } else {
            assert(is_victim(objects, by_priority, v));
        }
    }
}

/// Law: once room has been made, one more object keeps to both limits. Nothing is given up
/// without need.
pub proof fn law_room_is_enough(
    objects: Seq<ObjectView>,
    config: RetransmissionBufferConfig,
    needed: nat,
)
    requires
        config.max_objects >= 1,
        needed <= config.max_bytes,
    ensures
        make_room(objects, config, needed).len() + 1 <= config.max_objects,
        total_size(make_room(objects, config, needed)) + needed <= config.max_bytes,
        !is_full(objects, config, needed) ==> make_room(objects, config, needed) == objects,
    decreases objects.len(),
{
    if objects.len() > 0 && is_full(objects, config, needed) {
        lemma_victim_exists(objects, config.priority_eviction);
        law_room_is_enough(
            objects.remove(victim(objects, config.priority_eviction)),
            config,
            needed,
        );
    }
}

/// Law: where age decides, what is left is the newest part of what was there.
pub proof fn law_oldest_go_first(
    objects: Seq<ObjectView>,
    config: RetransmissionBufferConfig,
    needed: nat,
)
    requires
        !config.priority_eviction,
    ensures
        make_room(objects, config, needed).len() <= objects.len(),
        make_room(objects, config, needed) == objects.skip(
            objects.len() - make_room(objects, config, needed).len(),
        ),
    decreases objects.len(),
{
    if objects.len() > 0 && is_full(objects, config, needed) {
        lemma_victim_is(objects, false, 0);
        let rest = objects.remove(0);
        law_oldest_go_first(rest, config, needed);
        let kept = make_room(objects, config, needed);
        assert(kept =~= objects.skip(objects.len() - kept.len()));
    } else {
        assert(objects.skip(0) =~= objects);
    }
}

/// Law: where priority decides, nothing that is left has a lower priority than anything that
/// was given up.
pub proof fn law_low_priorities_go_first(
    objects: Seq<ObjectView>,
    config: RetransmissionBufferConfig,
    needed: nat,
    given_up: ObjectView,
    kept: ObjectView,
)
    requires
        config.priority_eviction,
        objects.contains(given_up),
        !make_room(objects, config, needed).contains(given_up),
        make_room(objects, config, needed).contains(kept),
    ensures
        objects.contains(kept),
        given_up.priority <= kept.priority,
    decreases objects.len(),
{
    assert(is_full(objects, config, needed));
    lemma_victim_exists(objects, true);
    let v = victim(objects, true);
    let rest = objects.remove(v);
    lemma_make_room_within(rest, config, needed, kept);
    let k = choose|k: int| 0 <= k < rest.len() && rest[k] == kept;
    let k0 = if k < v { k } else { k + 1 };
    assert(objects[k0] == kept);
    let g = choose|g: int| 0 <= g < objects.len() && objects[g] == given_up;
    if g != v {
        let g1 = if g < v { g } else { g - 1 };
        assert(rest[g1] == given_up);
        law_low_priorities_go_first(rest, config, needed, given_up, kept);
    }
}

/// Law: where priority decides, the newest go first among equals: of two objects of one priority
/// of which one is left, it is the older.
pub proof fn law_newest_go_first_among_equals(
    objects: Seq<ObjectView>,
    config: RetransmissionBufferConfig,
    needed: nat,
    given_up: int,
    kept: int,
)
    requires
        config.priority_eviction,
        objects.no_duplicates(),
        0 <= given_up < objects.len(),
        0 <= kept < objects.len(),
        objects[given_up].priority == objects[kept].priority,
        !make_room(objects, config, needed).contains(objects[given_up]),
        make_room(objects, config, needed).contains(objects[kept]),
    ensures
        kept < given_up,
    decreases objects.len(),
{
    let o = objects[given_up];
    let k = objects[kept];
    assert(objects.contains(o));
    assert(is_full(objects, config, needed));
    lemma_victim_exists(objects, true);
    let v = victim(objects, true);
    let rest = objects.remove(v);
    lemma_make_room_within(rest, config, needed, k);
    let k1 = choose|i: int| 0 <= i < rest.len() && rest[i] == k;
    let k0 = if k1 < v { k1 } else { k1 + 1 };
    assert(objects[k0] == k && k0 == kept);
    if given_up != v {
        let g1 = if given_up < v { given_up } else { given_up - 1 };
        assert(rest[g1] == o);
        assert(rest.no_duplicates());
        law_newest_go_first_among_equals(rest, config, needed, g1, k1);
    }
}

/// What is left was there before.
proof fn lemma_make_room_within(
    objects: Seq<ObjectView>,
    config: RetransmissionBufferConfig,
    needed: nat,
    kept: ObjectView,
)
    requires
        make_room(objects, config, needed).contains(kept),
    ensures
        objects.contains(kept),
    decreases objects.len(),
{
    if objects.len() > 0 && is_full(objects, config, needed) {
        lemma_victim_exists(objects, config.priority_eviction);
        let v = victim(objects, config.priority_eviction);
        let rest = objects.remove(v);
        lemma_make_room_within(rest, config, needed, kept);
        let k = choose|k: int| 0 <= k < rest.len() && rest[k] == kept;
        let k0 = if k < v { k } else { k + 1 };
        assert(objects[k0] == kept);
    }
}

/// Whether one of the objects has the sequence number.
pub open spec fn has_sequence(objects: Seq<ObjectView>, sequence: u64) -> bool {
    exists|i: int| 0 <= i < objects.len() && (#[trigger] objects[i]).sequence == sequence
}

/// The sequence numbers of the objects with priority `p`, oldest first.
spec fn sequences_of(objects: Seq<ObjectView>, p: u8) -> Seq<u64>
    decreases objects.len(),
{
    if objects.len() == 0 {
        Seq::empty()
    } else if objects.last().priority == p {
        sequences_of(objects.drop_last(), p).push(objects.last().sequence)
    } else {
        sequences_of(objects.drop_last(), p)
    }
}

/// `v` is where priority `p` occurs last.
spec fn is_last_of(objects: Seq<ObjectView>, p: u8, v: int) -> bool {
    &&& 0 <= v < objects.len()
    &&& objects[v].priority == p
    &&& forall|j: int| v < j < objects.len() ==> (#[trigger] objects[j]).priority != p
}

proof fn lemma_sequences_of_nonempty(objects: Seq<ObjectView>, p: u8) -> (v: int)
    requires
        sequences_of(objects, p).len() > 0,
    ensures
        is_last_of(objects, p, v),
        sequences_of(objects, p).last() == objects[v].sequence,
    decreases objects.len(),
{
    if objects.last().priority == p {
        objects.len() - 1
    } else {
        let v = lemma_sequences_of_nonempty(objects.drop_last(), p);
        assert(is_last_of(objects, p, v)) by {
            assert forall|j: int| v < j < objects.len() implies (
            #[trigger] objects[j]).priority != p by {
                if j < objects.len() - 1 {
                    assert(objects.drop_last()[j] == objects[j]);
                }
            }
        }
        v
    }
}

proof fn lemma_sequences_of_present(objects: Seq<ObjectView>, i: int)
    requires
        0 <= i < objects.len(),
    ensures
        sequences_of(objects, objects[i].priority).len() > 0,
    decreases objects.len(),
{
    if i < objects.len() - 1 {
        assert(objects.drop_last()[i] == objects[i]);
        lemma_sequences_of_present(objects.drop_last(), i);
    }
}

/// Taking out an object takes its number out of the list of its priority, behind the numbers of
/// the older objects there, and leaves the other lists alone.
proof fn lemma_sequences_of_remove(objects: Seq<ObjectView>, v: int, q: u8)
    requires
        0 <= v < objects.len(),
    ensures
        ({
            let p = objects[v].priority;
            let k = sequences_of(objects.take(v), p).len() as int;
            &&& k < sequences_of(objects, p).len()
            &&& sequences_of(objects, p)[k] == objects[v].sequence
            &&& sequences_of(objects.remove(v), q) == if q == p {
                sequences_of(objects, p).remove(k)
            } else {
                sequences_of(objects, q)
            }
        }),
    decreases objects.len(),
{
    let p = objects[v].priority;
    let k = sequences_of(objects.take(v), p).len() as int;
    let front = objects.drop_last();
    if v == objects.len() - 1 {
        assert(objects.remove(v) =~= front);
        assert(objects.take(v) =~= front);
        assert(sequences_of(objects, p).remove(k) =~= sequences_of(front, p));
    } else {
        lemma_sequences_of_remove(front, v, q);
        assert(front[v] == objects[v]);
        assert(front.take(v) =~= objects.take(v));
        assert(objects.remove(v).drop_last() =~= front.remove(v));
        assert(objects.remove(v).last() == objects.last());
        if objects.last().priority == p {
            assert(sequences_of(objects, p).remove(k) =~= sequences_of(front, p).remove(k).push(
                objects.last().sequence,
            ));
        }
    }
}

/// Whether no two objects share a sequence number.
spec fn distinct(objects: Seq<ObjectView>) -> bool {
    forall|i: int, j: int|
        #![trigger objects[i], objects[j]]
        0 <= i < j < objects.len() ==> objects[i].sequence != objects[j].sequence
}

/// The lists hold the numbers of objects.
proof fn lemma_sequences_of_contains(objects: Seq<ObjectView>, p: u8, s: u64)
    ensures
        sequences_of(objects, p).contains(s) ==> has_sequence(objects, s),
    decreases objects.len(),
{
    if objects.len() > 0 && sequences_of(objects, p).contains(s) {
        let front = objects.drop_last();
        lemma_sequences_of_contains(front, p, s);
        let list = sequences_of(objects, p);
        let i = choose|i: int| 0 <= i < list.len() && list[i] == s;
        if objects.last().priority == p && i == list.len() - 1 {
            assert(objects[objects.len() - 1].sequence == s);
        } else {
            assert(sequences_of(front, p)[i] == s);
            let j = choose|j: int|
                0 <= j < front.len() && (#[trigger] front[j]).sequence == s;
            assert(objects[j].sequence == s);
        }
    }
}

/// Objects with distinct numbers make lists without repetitions.
proof fn lemma_sequences_of_distinct(objects: Seq<ObjectView>, p: u8)
    requires
        distinct(objects),
    ensures
        sequences_of(objects, p).no_duplicates(),
    decreases objects.len(),
{
    if objects.len() > 0 {
        let front = objects.drop_last();
        let last = objects.len() - 1;
        assert forall|i: int, j: int|
            #![trigger front[i], front[j]]
            0 <= i < j < front.len() implies front[i].sequence != front[j].sequence by {
            assert(front[i] == objects[i] && front[j] == objects[j]);
        }
        lemma_sequences_of_distinct(front, p);
        lemma_sequences_of_contains(front, p, objects[last].sequence);
        if has_sequence(front, objects[last].sequence) {
            let j = choose|j: int|
                0 <= j < front.len() && (#[trigger] front[j]).sequence
                    == objects[last].sequence;
            assert(objects[j].sequence != objects[last].sequence);
        }
        let list = sequences_of(front, p);
        let x = objects[last].sequence;
        assert(!list.contains(x));
        assert(list.push(x).no_duplicates()) by {
            assert forall|i: int, j: int|
                0 <= i < list.push(x).len() && 0 <= j < list.push(x).len() && i
                    != j implies list.push(x)[i] != list.push(x)[j] by {
                if i < list.len() {
                    assert(list.contains(list[i]));
                }
                if j < list.len() {
                    assert(list.contains(list[j]));
                }
            }
        }
    }
}

proof fn lemma_total_size_remove(objects: Seq<ObjectView>, i: int)
    requires
        0 <= i < objects.len(),
    ensures
        total_size(objects) == total_size(objects.remove(i)) + object_size(objects[i]),
    decreases objects.len(),
{
    if i == objects.len() - 1 {
        assert(objects.remove(i) =~= objects.drop_last());
    } else {
        lemma_total_size_remove(objects.drop_last(), i);
        assert(objects.remove(i).drop_last() =~= objects.drop_last().remove(i));
        assert(objects.remove(i).last() == objects.last());
    }
}

/// There is exactly one object to give up next.
proof fn lemma_victim_is(objects: Seq<ObjectView>, by_priority: bool, i: int)
    requires
        is_victim(objects, by_priority, i),
    ensures
        victim(objects, by_priority) == i,
{
    let v = victim(objects, by_priority);
    assert(is_victim(objects, by_priority, v));
    if by_priority && v != i {
        assert(objects[i].priority <= objects[v].priority);
        assert(objects[v].priority <= objects[i].priority);
    }
}

/// A call on a buffer that may change it.
pub enum BufferCall {
    Add(ObjectView),
    Get(u64),
    GetRange(u64, u64),
    Clear,
}

/// What a buffer is, as mathematical values.
#[verifier::ext_equal]
pub struct BufferView {
    pub limits: RetransmissionBufferConfig,
    /// The buffered objects, oldest first, without the initialization segment.
    pub objects: Seq<ObjectView>,
    pub init: Option<ObjectView>,
    pub stats: StatsView,
}

impl BufferView {
    /// A buffer on which nothing has been called.
    pub open spec fn fresh(limits: RetransmissionBufferConfig) -> BufferView {
        BufferView {
            limits,
            objects: Seq::empty(),
            init: None,
            stats: StatsView { total_objects: 0, total_bytes: 0, evictions: 0, hits: 0, misses: 0 },
        }
    }

    /// What a look-up by sequence number gives: the initialization segment where the number is
    /// its own, else the buffered object with that number, if there is one.
    pub open spec fn lookup(self, sequence: u64) -> Option<ObjectView> {
        if self.init matches Some(o) && o.sequence == sequence {
            self.init
        } else if has_sequence(self.objects, sequence) {
            Some(
                self.objects[choose|i: int|
                    0 <= i < self.objects.len() && (#[trigger] self.objects[i]).sequence
                        == sequence],
            )
        } else {
            None
        }
    }

    /// The buffer after a call.
    pub open spec fn after(self, call: BufferCall) -> BufferView {
        match call {
            BufferCall::Add(o) => if is_init(o) {
                BufferView { init: Some(o), ..self }
            } else if has_sequence(self.objects, o.sequence) || !can_hold(self.limits, o) {
                self
            } else {
                let kept = make_room(self.objects, self.limits, object_size(o));
                BufferView {
                    objects: kept.push(o),
                    stats: StatsView {
                        total_objects: kept.len() + 1,
                        total_bytes: total_size(kept) + object_size(o),
                        evictions: (self.stats.evictions + (self.objects.len() - kept.len())) as nat,
                        ..self.stats
                    },
                    ..self
                }
            },
            BufferCall::Get(sequence) => if self.lookup(sequence) is Some {
                BufferView { stats: StatsView { hits: self.stats.hits + 1, ..self.stats }, ..self }
            } else {
                BufferView {
                    stats: StatsView { misses: self.stats.misses + 1, ..self.stats },
                    ..self
                }
            },
            BufferCall::GetRange(_, _) => self,
            BufferCall::Clear => BufferView {
                objects: Seq::empty(),
                stats: StatsView { total_objects: 0, total_bytes: 0, ..self.stats },
                ..self
            },
        }
    }

    /// The buffer after some calls, one after the other.
    pub open spec fn run(self, calls: Seq<BufferCall>) -> BufferView
        decreases calls.len(),
    {
        if calls.len() == 0 {
            self
        } else {
            self.run(calls.drop_last()).after(calls.last())
        }
    }

    /// No two objects share a sequence number, none of them is an initialization segment, the
    /// limits are kept, and the counters say how many objects and bytes are there.
    pub open spec fn is_consistent(self) -> bool {
        &&& forall|i: int, j: int|
            #![trigger self.objects[i], self.objects[j]]
            0 <= i < j < self.objects.len() ==> self.objects[i].sequence
                != self.objects[j].sequence
        &&& forall|i: int| 0 <= i < self.objects.len() ==> !is_init(#[trigger] self.objects[i])
        &&& self.objects.len() <= self.limits.max_objects
        &&& total_size(self.objects) <= self.limits.max_bytes
        &&& self.stats.total_objects == self.objects.len()
        &&& self.stats.total_bytes == total_size(self.objects)
    }
}

/// How many of some calls are look-ups.
pub open spec fn gets(calls: Seq<BufferCall>) -> nat
    decreases calls.len(),
{
    if calls.len() == 0 {
        0
    } else {
        gets(calls.drop_last()) + if calls.last() is Get {
            1nat
        } else {
            0
        }
    }
}

/// Whether none of some calls adds an initialization segment.
pub open spec fn no_init_added(calls: Seq<BufferCall>) -> bool {
    forall|k: int|
        0 <= k < calls.len() ==> ((#[trigger] calls[k]) matches BufferCall::Add(o) ==> !is_init(o))
}

/// Making room brings no number in twice.
proof fn lemma_make_room_distinct(
    objects: Seq<ObjectView>,
    config: RetransmissionBufferConfig,
    needed: nat,
)
    requires
        distinct(objects),
    ensures
        distinct(make_room(objects, config, needed)),
    decreases objects.len(),
{
    if objects.len() > 0 && is_full(objects, config, needed) {
        lemma_victim_exists(objects, config.priority_eviction);
        let v = victim(objects, config.priority_eviction);
        let rest = objects.remove(v);
        assert forall|i: int, j: int|
            #![trigger rest[i], rest[j]]
            0 <= i < j < rest.len() implies rest[i].sequence != rest[j].sequence by {
            let a = if i < v { i } else { i + 1 };
            let b = if j < v { j } else { j + 1 };
            assert(rest[i] == objects[a] && rest[j] == objects[b]);
        }
        lemma_make_room_distinct(rest, config, needed);
    }
}

/// Making room adds nothing.
proof fn lemma_make_room_len(
    objects: Seq<ObjectView>,
    config: RetransmissionBufferConfig,
    needed: nat,
)
    ensures
        make_room(objects, config, needed).len() <= objects.len(),
    decreases objects.len(),
{
    if objects.len() > 0 && is_full(objects, config, needed) {
        lemma_victim_exists(objects, config.priority_eviction);
        lemma_make_room_len(
            objects.remove(victim(objects, config.priority_eviction)),
            config,
            needed,
        );
    }
}

/// Law: what has just been added is what a look-up by its number gives. The new object is never
/// itself given up, however low its priority.
pub proof fn law_added_is_found(s: BufferView, o: ObjectView)
    requires
        !is_init(o),
        !has_sequence(s.objects, o.sequence),
        can_hold(s.limits, o),
        s.init matches Some(i) ==> i.sequence != o.sequence,
    ensures
        s.after(BufferCall::Add(o)).lookup(o.sequence) == Some(o),
{
    let kept = make_room(s.objects, s.limits, object_size(o));
    let objects = kept.push(o);
    assert(objects[kept.len() as int].sequence == o.sequence);
    let i = choose|i: int|
        0 <= i < objects.len() && (#[trigger] objects[i]).sequence == o.sequence;
    if i < kept.len() {
        assert(kept.contains(kept[i]));
        lemma_make_room_within(s.objects, s.limits, object_size(o), kept[i]);
        let j = choose|j: int| 0 <= j < s.objects.len() && s.objects[j] == kept[i];
        assert(s.objects[j].sequence == o.sequence);
    }
}

/// Law: the initialization segment stays until another one is added. Whatever else is called, and
/// however many objects are given up, it is found under its number, even where a buffered object
/// has the same.
pub proof fn law_init_stays(s: BufferView, calls: Seq<BufferCall>, init: ObjectView)
    requires
        s.init == Some(init),
        no_init_added(calls),
    ensures
        s.run(calls).init == Some(init),
        s.run(calls).lookup(init.sequence) == Some(init),
    decreases calls.len(),
{
    if calls.len() > 0 {
        let front = calls.drop_last();
        assert forall|k: int| 0 <= k < front.len() implies ((
        #[trigger] front[k]) matches BufferCall::Add(o) ==> !is_init(o)) by {
            assert(front[k] == calls[k]);
        }
        law_init_stays(s, front, init);
        assert(calls[calls.len() - 1] == calls.last());
    }
}

/// Law: an initialization segment that was added is found ever after, until another one is added.
pub proof fn law_added_init_is_found(s: BufferView, init: ObjectView, calls: Seq<BufferCall>)
    requires
        is_init(init),
        no_init_added(calls),
    ensures
        s.after(BufferCall::Add(init)).run(calls).lookup(init.sequence) == Some(init),
{
    law_init_stays(s.after(BufferCall::Add(init)), calls, init);
}

/// Law: every look-up is counted once, as a hit or as a miss, and nothing else is. No counter of
/// hits, misses or evictions ever falls, and the limits stay what they were.
pub proof fn law_calls_are_counted(s: BufferView, calls: Seq<BufferCall>)
    ensures
        s.run(calls).stats.hits + s.run(calls).stats.misses == s.stats.hits + s.stats.misses + gets(
            calls,
        ),
        s.run(calls).stats.hits >= s.stats.hits,
        s.run(calls).stats.misses >= s.stats.misses,
        s.run(calls).stats.evictions >= s.stats.evictions,
        s.run(calls).limits == s.limits,
    decreases calls.len(),
{
    if calls.len() > 0 {
        let before = s.run(calls.drop_last());
        law_calls_are_counted(s, calls.drop_last());
        if let BufferCall::Add(o) = calls.last() {
            lemma_make_room_len(before.objects, before.limits, object_size(o));
        }
    }
}

/// Law: a consistent buffer stays consistent, whatever is called.
pub proof fn law_calls_keep_consistent(s: BufferView, calls: Seq<BufferCall>)
    requires
        s.is_consistent(),
    ensures
        s.run(calls).is_consistent(),
    decreases calls.len(),
{
    if calls.len() > 0 {
        let before = s.run(calls.drop_last());
        law_calls_keep_consistent(s, calls.drop_last());
        let after = s.run(calls);
        if let BufferCall::Add(o) = calls.last() {
            if !is_init(o) && !has_sequence(before.objects, o.sequence) && can_hold(
                before.limits,
                o,
            ) {
                let kept = make_room(before.objects, before.limits, object_size(o));
                law_room_is_enough(before.objects, before.limits, object_size(o));
                lemma_make_room_distinct(before.objects, before.limits, object_size(o));
                assert(after.objects.drop_last() =~= kept);
                assert forall|i: int| 0 <= i < kept.len() implies !is_init(#[trigger] kept[i])
                    && kept[i].sequence != o.sequence by {
                    assert(kept.contains(kept[i]));
                    lemma_make_room_within(before.objects, before.limits, object_size(o), kept[i]);
                    let j = choose|j: int|
                        0 <= j < before.objects.len() && before.objects[j] == kept[i];
                    assert(!is_init(before.objects[j]));
                }
                assert forall|i: int, j: int|
                    #![trigger after.objects[i], after.objects[j]]
                    0 <= i < j < after.objects.len() implies after.objects[i].sequence
                    != after.objects[j].sequence by {
                    assert(after.objects[i] == kept[i]);
                    if j < kept.len() {
                        assert(after.objects[j] == kept[j]);
                    }
                }
                assert forall|i: int| 0 <= i < after.objects.len() implies !is_init(
                    #[trigger] after.objects[i],
                ) by {
                    if i < kept.len() {
                        assert(after.objects[i] == kept[i]);
                    }
                }
            }
        }
    }
}

/// Law: after any calls on a new buffer, the counters say how many objects are there and how many
/// bytes they are charged for, both within the limits, and hits and misses together are the
/// look-ups made. After none, all counters are zero.
pub proof fn law_counters_of_any_buffer(
    limits: RetransmissionBufferConfig,
    calls: Seq<BufferCall>,
)
    ensures
        ({
            let s = BufferView::fresh(limits).run(calls);
            &&& s.is_consistent()
            &&& s.limits == limits
            &&& s.stats.total_objects == s.objects.len()
            &&& s.stats.total_bytes == total_size(s.objects)
            &&& s.stats.total_objects <= limits.max_objects
            &&& s.stats.total_bytes <= limits.max_bytes
            &&& s.stats.hits + s.stats.misses == gets(calls)
            &&& calls.len() == 0 ==> s.stats == (StatsView {
                total_objects: 0,
                total_bytes: 0,
                evictions: 0,
                hits: 0,
                misses: 0,
            })
        }),
{
    law_calls_are_counted(BufferView::fresh(limits), calls);
    law_calls_keep_consistent(BufferView::fresh(limits), calls);
}

/// Whether `found` are the objects with numbers from `from` up to `to`, both included, each once,
/// by increasing number.
pub open spec fn is_range(
    objects: Seq<ObjectView>,
    from: u64,
    to: u64,
    found: Seq<ObjectView>,
) -> bool {
    &&& forall|i: int|
        0 <= i < found.len() ==> objects.contains(#[trigger] found[i]) && from <= found[i].sequence
            <= to
    &&& forall|i: int, j: int|
        #![trigger found[i], found[j]]
        0 <= i < j < found.len() ==> found[i].sequence < found[j].sequence
    &&& forall|o: ObjectView| #[trigger]
        objects.contains(o) && from <= o.sequence <= to ==> found.contains(o)
}

/// `Arc::clone`: another handle to the same object.
#[verifier::external_body]
fn share(object: &Arc<MoqObject>) -> (r: Arc<MoqObject>)
    ensures
        r == *object,
{
    object.clone()
}

/// The lowest key of the map.
fn lowest_key(m: &BTreeMap<u8, Vec<u64>>) -> (k: Option<u8>)
    ensures
        k is None ==> m@.dom() == Set::<u8>::empty(),
        k matches Some(p) ==> m@.contains_key(p) && forall|q: u8|
            #[trigger] m@.contains_key(q) ==> p <= q,
{
    for kv in it: m.iter()
        invariant
            it.index() == 0,
            it.seq() == vstd::std_specs::btree::spec_btree_map_iter(m).remaining(),
            vstd::std_specs::btree::increasing_seq(
                it.seq().map_values(|kv: (&u8, &Vec<u64>)| *kv.0),
            ),
    {
        let ghost all = it.seq();
        proof {
            let keys = all.map_values(|kv: (&u8, &Vec<u64>)| *kv.0);
            assert(kv == all[0]);
            assert(keys[0] == *kv.0);
            assert(m@.contains_key(*all[0].0));
            assert forall|q: u8| #[trigger] m@.contains_key(q) implies *kv.0 <= q by {
                assert(all.contains((&q, &m@[q])));
                let j = choose|j: int| 0 <= j < all.len() && all[j] == (&q, &m@[q]);
                assert(keys[j] == q);
                if j > 0 {
                    assert(vstd::std_specs::cmp::OrdSpec::cmp_spec(&keys[0], &keys[j]) is Less);
                }
            }
        }
        return Some(*kv.0);
    }
    None
}

/// A buffer of published objects that finds them by sequence number. The initialization
/// segment is kept apart and is never given up.
pub struct RetransmissionBuffer {
    config: RetransmissionBufferConfig,
    sequence_index: BTreeMap<u64, Arc<MoqObject>>,
    insertion_order: VecDeque<u64>,
    priority_index: BTreeMap<u8, Vec<u64>>,
    total_bytes: usize,
    stats: BufferStats,
    init_segment: Option<Arc<MoqObject>>,
}

impl View for RetransmissionBuffer {
    type V = BufferView;

    open spec fn view(&self) -> BufferView {
        BufferView {
            limits: self.limits(),
            objects: self.objects(),
            init: self.init(),
            stats: self.counters()@,
        }
    }
}

impl RetransmissionBuffer {
    /// The buffered objects, oldest first, without the initialization segment.
    pub closed spec fn objects(&self) -> Seq<ObjectView> {
        Seq::new(
            self.insertion_order@.len(),
            |i: int| self.sequence_index@[self.insertion_order@[i]]@,
        )
    }

    /// The initialization segment, once there is one.
    pub closed spec fn init(&self) -> Option<ObjectView> {
        match self.init_segment {
            Some(o) => Some(o@),
            None => None,
        }
    }

    /// The limits that the buffer was made with.
    pub closed spec fn limits(&self) -> RetransmissionBufferConfig {
        self.config
    }

    /// The counters.
    pub closed spec fn counters(&self) -> BufferStats {
        self.stats
    }

    /// What a look-up by sequence number gives: the initialization segment where the number is
    /// its own, else the buffered object with that number, if there is one.
    pub open spec fn lookup(&self, sequence: u64) -> Option<ObjectView> {
        self@.lookup(sequence)
    }

    /// Law: a well-formed buffer is consistent.
    pub proof fn law_is_consistent(&self)
        requires
            self.wf(),
        ensures
            self@.is_consistent(),
    {
        self.law_distinct_sequences();
    }

    /// Law: no two buffered objects share a sequence number, and none of them is an
    /// initialization segment.
    pub proof fn law_distinct_sequences(&self)
        requires
            self.wf(),
        ensures
            forall|i: int, j: int|
                #![trigger self.objects()[i], self.objects()[j]]
                0 <= i < j < self.objects().len() ==> self.objects()[i].sequence
                    != self.objects()[j].sequence,
            forall|i: int|
                0 <= i < self.objects().len() ==> !is_init(#[trigger] self.objects()[i]),
    {
        let order = self.insertion_order@;
        assert forall|i: int| 0 <= i < self.objects().len() implies (
        #[trigger] self.objects()[i]).sequence == order[i] && !is_init(self.objects()[i]) by {
            assert(order.contains(order[i]));
            assert(self.sequence_index@.contains_key(order[i]));
        }
    }

    /// Law: a look-up by the number of a buffered object gives that object, unless the
    /// initialization segment has the same number. So whatever `add` has just put in is what
    /// `get` gives back.
    pub proof fn law_lookup_finds(&self, i: int)
        requires
            self.wf(),
            0 <= i < self.objects().len(),
            self.init() matches Some(o) ==> o.sequence != self.objects()[i].sequence,
        ensures
            self.lookup(self.objects()[i].sequence) == Some(self.objects()[i]),
    {
        self.law_distinct_sequences();
        let sequence = self.objects()[i].sequence;
        let j = choose|j: int|
            0 <= j < self.objects().len() && (#[trigger] self.objects()[j]).sequence == sequence;
        assert(i < j || j < i || i == j);
    }

    /// Law: the initialization segment is always found under its number.
    pub proof fn law_init_is_found(&self)
        ensures
            self.init() matches Some(o) ==> self.lookup(o.sequence) == Some(o),
    {
    }

    spec fn indexed(&self) -> bool {
        &&& self.insertion_order@.no_duplicates()
        &&& forall|s: u64|
            #[trigger] self.sequence_index@.contains_key(s) <==> self.insertion_order@.contains(s)
        &&& forall|s: u64| #[trigger]
            self.sequence_index@.contains_key(s) ==> self.sequence_index@[s].sequence == s
                && !is_init(self.sequence_index@[s]@)
        &&& self.sequence_index@.len() == self.insertion_order@.len()
        &&& self.total_bytes == total_size(self.objects())
        &&& forall|p: u8|
            #![trigger self.priority_index@.contains_key(p)]
            #![trigger sequences_of(self.objects(), p)]
            {
                &&& self.priority_index@.contains_key(p) <==> sequences_of(self.objects(), p).len()
                    > 0
                &&& self.priority_index@.contains_key(p) ==> self.priority_index@[p]@
                    == sequences_of(self.objects(), p)
            }
    }

    /// The buffer is consistent: no two objects share a sequence number, none of them is an
    /// initialization segment, the limits are kept, and the counters of objects and bytes are up
    /// to date.
    pub closed spec fn wf(&self) -> bool {
        &&& self.indexed()
        &&& self.insertion_order@.len() <= self.config.max_objects
        &&& self.total_bytes <= self.config.max_bytes
        &&& self.stats.total_objects == self.insertion_order@.len()
        &&& self.stats.total_bytes == self.total_bytes
    }

    /// Law: no buffer ever holds more objects or more bytes than its limits allow.
    pub proof fn law_limits_hold(&self)
        requires
            self.wf(),
        ensures
            self.objects().len() <= self.limits().max_objects,
            total_size(self.objects()) <= self.limits().max_bytes,
            self.counters().total_objects <= self.limits().max_objects,
            self.counters().total_bytes <= self.limits().max_bytes,
    {
    }

    /// An empty buffer with the given limits.
    pub fn new(config: RetransmissionBufferConfig) -> (b: Self)
        ensures
            b.wf(),
            b.objects() == Seq::<ObjectView>::empty(),
            b.init() is None,
            b.limits() == config,
            b@ == BufferView::fresh(config),
            b.counters() == (BufferStats {
                total_objects: 0,
                total_bytes: 0,
                evictions: 0,
                hits: 0,
                misses: 0,
            }),
    {
        let b = RetransmissionBuffer {
            config,
            sequence_index: BTreeMap::new(),
            insertion_order: VecDeque::new(),
            priority_index: BTreeMap::new(),
            total_bytes: 0,
            stats: BufferStats::default(),
            init_segment: None,
        };
        assert(b.objects() =~= Seq::<ObjectView>::empty());
        b
    }

    /// The approximate size of an object in bytes, where it can be counted.
    fn calculate_object_size(object: &MoqObject) -> (n: Option<usize>)
        ensures
            n is Some <==> object_size(object@) <= usize::MAX,
            n matches Some(size) ==> size == object_size(object@),
    {
        let fixed = std::mem::size_of::<MoqObject>();
        match object.data.len().checked_add(object.name.as_str().as_bytes().len()) {
            Some(sum) => sum.checked_add(fixed),
            None => None,
        }
    }

    proof fn lemma_objects_distinct(&self)
        requires
            self.indexed(),
        ensures
            distinct(self.objects()),
            forall|i: int|
                0 <= i < self.objects().len() ==> (#[trigger] self.objects()[i]).sequence
                    == self.insertion_order@[i],
    {
        let order = self.insertion_order@;
        assert forall|i: int| 0 <= i < self.objects().len() implies (
        #[trigger] self.objects()[i]).sequence == order[i] by {
            assert(order.contains(order[i]));
            assert(self.sequence_index@.contains_key(order[i]));
        }
    }

    /// Takes an object out of all indices and out of the byte count. A number that is not there
    /// changes nothing.
    fn remove_object(&mut self, sequence: u64)
        requires
            old(self).indexed(),
            old(self).stats.evictions < u64::MAX,
        ensures
            final(self).indexed(),
            final(self).keeps_all_but_objects(old(self)),
            !final(self).sequence_index@.contains_key(sequence),
            !final(self).insertion_order@.contains(sequence),
            forall|p: u8| #[trigger]
                final(self).priority_index@.contains_key(p)
                    ==> !final(self).priority_index@[p]@.contains(sequence),
            forall|s: u64|
                s != sequence ==> (#[trigger] final(self).sequence_index@.contains_key(s)
                    <==> old(self).sequence_index@.contains_key(s)),
            !old(self).insertion_order@.contains(sequence) ==> *final(self) == *old(self),
            forall|v: int|
                0 <= v < old(self).insertion_order@.len() && #[trigger] old(
                    self,
                ).insertion_order@[v] == sequence ==> {
                    &&& final(self).objects() == old(self).objects().remove(v)
                    &&& final(self).insertion_order@ == old(self).insertion_order@.remove(v)
                    &&& final(self).total_bytes == old(self).total_bytes - object_size(
                        old(self).objects()[v],
                    )
                    &&& final(self).stats.evictions == old(self).stats.evictions + 1
                },
    {
        let ghost objects = self.objects();
        let ghost order = self.insertion_order@;
        let ghost lists = self.priority_index@;
        proof {
            self.lemma_objects_distinct();
        }
        let removed = if self.sequence_index.contains_key(&sequence) {
            self.sequence_index.remove(&sequence)
        } else {
            None
        };
        if let Some(object) = removed {
            let at = position_of(&self.insertion_order, sequence);
            let ghost v = at as int;
            let ghost p = objects[v].priority;
            let ghost k = sequences_of(objects.take(v), p).len() as int;
            proof {
                assert(objects[v] == object@);
                lemma_total_size_remove(objects, v);
                lemma_order_remove(order, v);
                lemma_sequences_of_remove(objects, v, p);
                lemma_sequences_of_distinct(objects, p);
                assert(lists.contains_key(p));
                assert(sequences_of(objects, p).contains(sequence));
            }
            self.insertion_order.remove(at);
            if let Some(mut sequences) = self.priority_index.remove(&object.priority) {
                assert(sequences@ == sequences_of(objects, p));
                let place = place_of(&sequences, sequence);
                assert(place == k);
                sequences.remove(place);
                if sequences.len() > 0 {
                    self.priority_index.insert(object.priority, sequences);
                }
            }
            if let Some(object_size) = Self::calculate_object_size(&object) {
                self.total_bytes = self.total_bytes.saturating_sub(object_size);
            }
            self.stats.evictions = self.stats.evictions + 1;
            proof {
                assert(self.insertion_order@ =~= order.remove(v));
                assert(self.objects() =~= objects.remove(v)) by {
                    assert forall|i: int| 0 <= i < self.objects().len() implies self.objects()[i]
                        == objects.remove(v)[i] by {
                        let j = if i < v { i } else { i + 1 };
                        assert(self.insertion_order@[i] == order[j]);
                        assert(order[j] != order[v]);
                    }
                }
                assert forall|q: u8|
                    #![trigger self.priority_index@.contains_key(q)]
                    #![trigger sequences_of(self.objects(), q)]
                    {
                        &&& self.priority_index@.contains_key(q) <==> sequences_of(
                            self.objects(),
                            q,
                        ).len() > 0
                        &&& self.priority_index@.contains_key(q) ==> self.priority_index@[q]@
                            == sequences_of(self.objects(), q)
                    } by {
                    lemma_sequences_of_remove(objects, v, q);
                    assert(lists.contains_key(q) <==> sequences_of(objects, q).len() > 0);
                }
            }
        }
        proof {
            assert forall|q: u8| #[trigger] self.priority_index@.contains_key(
                q,
            ) implies !self.priority_index@[q]@.contains(sequence) by {
                lemma_sequences_of_contains(self.objects(), q, sequence);
                self.lemma_has_sequence(sequence);
            }
        }
    }

    /// What eviction leaves alone.
    spec fn keeps_all_but_objects(&self, before: &Self) -> bool {
        &&& self.config == before.config
        &&& self.init_segment == before.init_segment
        &&& self.stats == (BufferStats { evictions: self.stats.evictions, ..before.stats })
    }

    /// Gives up the oldest object.
    fn evict_oldest(&mut self)
        requires
            old(self).indexed(),
            old(self).objects().len() > 0,
            old(self).stats.evictions < u64::MAX,
        ensures
            final(self).indexed(),
            final(self).keeps_all_but_objects(old(self)),
            final(self).objects() == old(self).objects().remove(0),
            final(self).stats.evictions == old(self).stats.evictions + 1,
    {
        let sequence = self.insertion_order[0];
        assert(self.insertion_order@[0] == sequence);
        self.remove_object(sequence);
    }

    /// Gives up the newest of the objects with the lowest priority.
    fn evict_lowest_priority(&mut self)
        requires
            old(self).indexed(),
            old(self).objects().len() > 0,
            old(self).stats.evictions < u64::MAX,
        ensures
            final(self).indexed(),
            final(self).keeps_all_but_objects(old(self)),
            is_victim(old(self).objects(), true, victim(old(self).objects(), true)),
            final(self).objects() == old(self).objects().remove(
                victim(old(self).objects(), true),
            ),
            final(self).stats.evictions == old(self).stats.evictions + 1,
    {
        let ghost objects = self.objects();
        let ghost lists = self.priority_index@;
        let lowest = lowest_key(&self.priority_index);
        proof {
            lemma_sequences_of_present(objects, 0);
            assert(lists.contains_key(objects[0].priority));
            assert(lists.dom().contains(objects[0].priority));
        }
        if let Some(priority) = lowest {
            let last = match self.priority_index.get(&priority) {
                Some(sequences) => if sequences.len() > 0 {
                    Some(sequences[sequences.len() - 1])
                } else {
                    None
                },
                None => None,
            };
            let ghost v = lemma_sequences_of_nonempty(objects, priority);
            proof {
                lemma_lowest_is_victim(objects, priority, v, lists.dom());
                lemma_victim_is(objects, true, v);
                self.lemma_objects_distinct();
            }
            if let Some(sequence) = last {
                assert(sequence == objects[v].sequence);
                assert(self.insertion_order@[v] == sequence);
                self.remove_object(sequence);
            }
        }
    }

    /// Gives objects up until one more of `needed_bytes` bytes has a place.
    fn evict_for_space(&mut self, needed_bytes: usize)
        requires
            old(self).indexed(),
            old(self).config.max_objects >= 1,
            needed_bytes <= old(self).config.max_bytes,
            old(self).stats.evictions + old(self).objects().len() <= u64::MAX,
        ensures
            final(self).indexed(),
            final(self).keeps_all_but_objects(old(self)),
            final(self).objects() == make_room(
                old(self).objects(),
                old(self).config,
                needed_bytes as nat,
            ),
            final(self).objects().len() <= old(self).objects().len(),
            final(self).stats.evictions == old(self).stats.evictions + (
            old(self).objects().len() - final(self).objects().len()),
            forall|s: u64| #[trigger]
                final(self).sequence_index@.contains_key(s)
                    ==> old(self).sequence_index@.contains_key(s),
    {
        let ghost goal = make_room(self.objects(), self.config, needed_bytes as nat);
        while self.sequence_index.len() >= self.config.max_objects
            invariant
                self.indexed(),
                self.keeps_all_but_objects(old(self)),
                self.config.max_objects >= 1,
                goal == make_room(self.objects(), self.config, needed_bytes as nat),
                self.objects().len() <= old(self).objects().len(),
                self.stats.evictions == old(self).stats.evictions + (old(self).objects().len()
                    - self.objects().len()),
                old(self).stats.evictions + old(self).objects().len() <= u64::MAX,
                forall|s: u64| #[trigger]
                    self.sequence_index@.contains_key(s) ==> old(self).sequence_index@.contains_key(
                        s,
                    ),
            decreases self.objects().len(),
        {
            self.evict_one(Ghost(needed_bytes as nat));
        }
        while self.total_bytes > self.config.max_bytes - needed_bytes
            && !self.sequence_index.is_empty()
            invariant
                self.indexed(),
                self.keeps_all_but_objects(old(self)),
                self.objects().len() < self.config.max_objects,
                goal == make_room(self.objects(), self.config, needed_bytes as nat),
                self.objects().len() <= old(self).objects().len(),
                self.stats.evictions == old(self).stats.evictions + (old(self).objects().len()
                    - self.objects().len()),
                old(self).stats.evictions + old(self).objects().len() <= u64::MAX,
                needed_bytes <= self.config.max_bytes,
                forall|s: u64| #[trigger]
                    self.sequence_index@.contains_key(s) ==> old(self).sequence_index@.contains_key(
                        s,
                    ),
            decreases self.objects().len(),
        {
            self.evict_one(Ghost(needed_bytes as nat));
        }
    }

    /// Gives up one object because `needed` more bytes have no place.
    fn evict_one(&mut self, Ghost(needed): Ghost<nat>)
        requires
            old(self).indexed(),
            old(self).objects().len() > 0,
            is_full(old(self).objects(), old(self).config, needed),
            old(self).stats.evictions < u64::MAX,
        ensures
            final(self).indexed(),
            final(self).keeps_all_but_objects(old(self)),
            final(self).objects().len() == old(self).objects().len() - 1,
            make_room(final(self).objects(), final(self).config, needed) == make_room(
                old(self).objects(),
                old(self).config,
                needed,
            ),
            final(self).stats.evictions == old(self).stats.evictions + 1,
            forall|s: u64| #[trigger]
                final(self).sequence_index@.contains_key(s)
                    ==> old(self).sequence_index@.contains_key(s),
    {
        let ghost objects = self.objects();
        let ghost by_priority = self.config.priority_eviction;
        if self.config.priority_eviction {
            self.evict_lowest_priority();
        } else {
            proof {
                lemma_victim_is(objects, false, 0);
            }
            self.evict_oldest();
        }
        let ghost v = victim(objects, by_priority);
        proof {
            assert forall|s: u64| #[trigger] self.sequence_index@.contains_key(s) implies old(
                self,
            ).sequence_index@.contains_key(s) by {
                let i = choose|i: int|
                    0 <= i < self.insertion_order@.len() && self.insertion_order@[i] == s;
                let j = if i < v { i } else { i + 1 };
                assert(self.objects()[i] == objects[j]);
                assert(old(self).insertion_order@.contains(old(self).insertion_order@[j]));
                assert(old(self).sequence_index@.contains_key(old(self).insertion_order@[j]));
            }
        }
    }

    /// Whether an object can be added within the limits of the machine: the counter of evictions
    /// does not overflow, should all that is there have to go.
    pub open spec fn admits(&self, o: ObjectView) -> bool {
        !is_init(o) && !has_sequence(self.objects(), o.sequence) && can_hold(self.limits(), o)
            ==> self.counters().evictions + self.objects().len() <= u64::MAX
    }

    /// Law: an object can be added as long as the counter of evictions has room for all that is
    /// there.
    pub proof fn law_when_an_object_can_be_added(&self, o: ObjectView)
        ensures
            self.counters().evictions + self.objects().len() <= u64::MAX ==> self.admits(o),
            o.group_id == 0 ==> self.admits(o),
    {
    }

    /// Adds an object. An initialization segment replaces the one before it. An object whose
    /// sequence number is there already changes nothing, and neither does one that has no place
    /// within the limits. Any other object makes room for itself and becomes the newest.
    pub fn add(&mut self, object: MoqObject)
        requires
            old(self).wf(),
            old(self).admits(object@),
        ensures
            final(self).wf(),
            final(self).limits() == old(self).limits(),
            is_init(object@) ==> {
                &&& final(self).init() == Some(object@)
                &&& final(self).objects() == old(self).objects()
                &&& final(self).counters() == old(self).counters()
            },
            !is_init(object@) ==> final(self).init() == old(self).init(),
            !is_init(object@) && (has_sequence(old(self).objects(), object.sequence)
                || !can_hold(old(self).limits(), object@)) ==> *final(self) == *old(self),
            !is_init(object@) && !has_sequence(old(self).objects(), object.sequence) && can_hold(
                old(self).limits(),
                object@,
            ) ==> {
                let kept = make_room(
                    old(self).objects(),
                    old(self).limits(),
                    object_size(object@),
                );
                &&& final(self).objects() == kept.push(object@)
                &&& final(self).counters() == (BufferStats {
                    total_objects: (kept.len() + 1) as usize,
                    total_bytes: (total_size(kept) + object_size(object@)) as usize,
                    evictions: (old(self).counters().evictions + (old(self).objects().len()
                        - kept.len())) as u64,
                    ..old(self).counters()
                })
            },
            final(self)@ == old(self)@.after(BufferCall::Add(object@)),
            final(self).counters().total_objects <= final(self).limits().max_objects,
            final(self).counters().total_bytes <= final(self).limits().max_bytes,
    {
        let sequence = object.sequence;
        let priority = object.priority;
        let size = Self::calculate_object_size(&object);
        let ghost added = object@;

        if object.group_id == MEDIA_TYPE_INIT as u32 {
            self.init_segment = Some(Arc::new(object));
            assert(self.objects() =~= old(self).objects());
            return;
        }
        proof {
            self.lemma_has_sequence(sequence);
        }
        if self.sequence_index.contains_key(&sequence) {
            return;
        }
        let object_size = match size {
            Some(object_size) => object_size,
            None => return,
        };
        if self.config.max_objects == 0 || object_size > self.config.max_bytes {
            return;
        }
        self.evict_for_space(object_size);
        let ghost kept = self.objects();
        proof {
            law_room_is_enough(old(self).objects(), self.config, object_size as nat);
        }
        let ghost order = self.insertion_order@;
        let ghost index = self.sequence_index@;
        let ghost lists = self.priority_index@;

        self.sequence_index.insert(sequence, Arc::new(object));
        self.insertion_order.push_back(sequence);

        let mut sequences = match self.priority_index.remove(&priority) {
            Some(sequences) => sequences,
            None => Vec::new(),
        };
        sequences.push(sequence);
        self.priority_index.insert(priority, sequences);

        self.total_bytes = self.total_bytes + object_size;
        self.stats.total_objects = self.sequence_index.len();
        self.stats.total_bytes = self.total_bytes;
        proof {
            assert(!order.contains(sequence));
            assert forall|s: u64| #[trigger] self.insertion_order@.contains(s) <==> (
            order.contains(s) || s == sequence) by {
                if order.contains(s) {
                    let i = choose|i: int| 0 <= i < order.len() && order[i] == s;
                    assert(self.insertion_order@[i] == s);
                }
                assert(self.insertion_order@[order.len() as int] == sequence);
            }
            assert(self.objects() =~= kept.push(added)) by {
                assert forall|i: int| 0 <= i < kept.len() implies self.objects()[i]
                    == kept[i] by {
                    assert(order.contains(order[i]));
                }
            }
            assert(self.objects().drop_last() =~= kept);
            assert forall|q: u8|
                #![trigger self.priority_index@.contains_key(q)]
                #![trigger sequences_of(self.objects(), q)]
                {
                    &&& self.priority_index@.contains_key(q) <==> sequences_of(
                        self.objects(),
                        q,
                    ).len() > 0
                    &&& self.priority_index@.contains_key(q) ==> self.priority_index@[q]@
                        == sequences_of(self.objects(), q)
                } by {
                assert(lists.contains_key(q) <==> sequences_of(kept, q).len() > 0);
            }
        }
    }

    /// Whether `add` would stay within the limits of the machine.
    pub fn can_add(&self, object: &MoqObject) -> (b: bool)
        requires
            self.wf(),
        ensures
            b == self.admits(object@),
    {
        proof {
            self.lemma_has_sequence(object.sequence);
        }
        if object.group_id == MEDIA_TYPE_INIT as u32 || self.sequence_index.contains_key(
            &object.sequence,
        ) {
            return true;
        }
        match Self::calculate_object_size(object) {
            Some(size) => self.config.max_objects == 0 || size > self.config.max_bytes
                || self.stats.evictions.checked_add(self.insertion_order.len() as u64).is_some(),
            None => true,
        }
    }

    /// Looks an object up by its sequence number: the initialization segment first, then the
    /// buffered objects. Counts a hit or a miss.
    pub fn get(&mut self, sequence: u64) -> (r: Option<Arc<MoqObject>>)
        requires
            old(self).wf(),
            old(self).lookup(sequence) is Some ==> old(self).counters().hits < u64::MAX,
            old(self).lookup(sequence) is None ==> old(self).counters().misses < u64::MAX,
        ensures
            final(self).wf(),
            final(self).limits() == old(self).limits(),
            final(self).objects() == old(self).objects(),
            final(self).init() == old(self).init(),
            final(self)@ == old(self)@.after(BufferCall::Get(sequence)),
            match r {
                Some(found) => old(self).lookup(sequence) == Some(found@),
                None => old(self).lookup(sequence) is None,
            },
            final(self).counters() == if r is Some {
                BufferStats {
                    hits: (old(self).counters().hits + 1) as u64,
                    ..old(self).counters()
                }
            } else {
                BufferStats {
                    misses: (old(self).counters().misses + 1) as u64,
                    ..old(self).counters()
                }
            },
    {
        proof {
            self.lemma_has_sequence(sequence);
        }
        if let Some(init) = &self.init_segment {
            if init.sequence == sequence {
                let found = share(init);
                self.stats.hits = self.stats.hits + 1;
                assert(self.objects() =~= old(self).objects());
                return Some(found);
            }
        }
        let found = match self.sequence_index.get(&sequence) {
            Some(object) => Some(share(object)),
            None => None,
        };
        if found.is_some() {
            self.stats.hits = self.stats.hits + 1;
        } else {
            self.stats.misses = self.stats.misses + 1;
        }
        proof {
            assert(self.objects() =~= old(self).objects());
            if found is Some {
                let order = self.insertion_order@;
                let i = choose|i: int| 0 <= i < order.len() && order[i] == sequence;
                assert(self.objects()[i] == found->0@);
                old(self).law_lookup_finds(i);
            }
        }
        found
    }

    /// The buffered objects whose sequence number lies between `start_seq` and `end_seq`, both
    /// included, by increasing sequence number.
    pub fn get_range(&mut self, start_seq: u64, end_seq: u64) -> (r: Vec<Arc<MoqObject>>)
        requires
            old(self).wf(),
            start_seq <= end_seq || old(self).objects().len() == 0,
        ensures
            *final(self) == *old(self),
            final(self)@ == old(self)@.after(BufferCall::GetRange(start_seq, end_seq)),
            is_range(
                old(self).objects(),
                start_seq,
                end_seq,
                r@.map_values(|o: Arc<MoqObject>| o@),
            ),
            forall|i: int|
                #![trigger r@[i]]
                0 <= i < r@.len() ==> old(self).objects().contains(r@[i]@) && start_seq
                    <= r@[i]@.sequence <= end_seq,
            forall|i: int, j: int|
                #![trigger r@[i], r@[j]]
                0 <= i < j < r@.len() ==> r@[i]@.sequence < r@[j]@.sequence,
            forall|o: ObjectView| #[trigger]
                old(self).objects().contains(o) && start_seq <= o.sequence <= end_seq
                    ==> exists|i: int| 0 <= i < r@.len() && (#[trigger] r@[i])@ == o,
    {
        let mut found: Vec<Arc<MoqObject>> = Vec::new();
        let ghost index = self.sequence_index@;
        for kv in it: self.sequence_index.iter()
            invariant
                *self == *old(self),
                self.wf(),
                index == self.sequence_index@,
                it.seq() == vstd::std_specs::btree::spec_btree_map_iter(
                    &self.sequence_index,
                ).remaining(),
                vstd::std_specs::btree::increasing_seq(
                    it.seq().map_values(|kv: (&u64, &Arc<MoqObject>)| *kv.0),
                ),
                forall|i: int|
                    #![trigger found@[i]]
                    0 <= i < found@.len() ==> {
                        &&& index.contains_key(found@[i].sequence)
                        &&& index[found@[i].sequence] == found@[i]
                        &&& start_seq <= found@[i].sequence <= end_seq
                    },
                forall|i: int, j: int|
                    #![trigger found@[i], it.seq()[j]]
                    0 <= i < found@.len() && it.index() <= j < it.seq().len()
                        ==> found@[i].sequence < *it.seq()[j].0,
                forall|i: int, j: int|
                    #![trigger found@[i], found@[j]]
                    0 <= i < j < found@.len() ==> found@[i].sequence < found@[j].sequence,
                forall|j: int|
                    #![trigger it.seq()[j]]
                    0 <= j < it.index() && start_seq <= *it.seq()[j].0 <= end_seq ==> exists|i: int|
                        0 <= i < found@.len() && (#[trigger] found@[i]).sequence
                            == *it.seq()[j].0,
        {
            let ghost n = it.index() as int;
            let ghost before = found@;
            proof {
                assert(kv == it.seq()[n]);
                assert(index.contains_key(*it.seq()[n].0));
                lemma_increasing(it.seq().map_values(|kv: (&u64, &Arc<MoqObject>)| *kv.0));
                assert forall|j: int| n < j < it.seq().len() implies *kv.0
                    < *(#[trigger] it.seq()[j]).0 by {
                    let keys = it.seq().map_values(|kv: (&u64, &Arc<MoqObject>)| *kv.0);
                    assert(keys[n] < keys[j]);
                }
            }
            if start_seq <= *kv.0 && *kv.0 <= end_seq {
                found.push(share(kv.1));
                proof {
                    assert(found@[before.len() as int].sequence == *kv.0);
                    assert forall|j: int|
                        #![trigger it.seq()[j]]
                        0 <= j < n + 1 && start_seq <= *it.seq()[j].0 <= end_seq implies exists|
                        i: int,
                    |
                        0 <= i < found@.len() && (#[trigger] found@[i]).sequence
                            == *it.seq()[j].0 by {
                        if j < n {
                            let i = choose|i: int|
                                0 <= i < before.len() && (#[trigger] before[i]).sequence
                                    == *it.seq()[j].0;
                            assert(found@[i] == before[i]);
                        }
                    }
                }
            }
        }
        proof {
            let order = self.insertion_order@;
            assert forall|i: int| #![trigger found@[i]] 0 <= i < found@.len() implies old(
                self,
            ).objects().contains(found@[i]@) by {
                let k = choose|k: int| 0 <= k < order.len() && order[k] == found@[i].sequence;
                assert(self.objects()[k] == found@[i]@);
            }
            assert forall|o: ObjectView| #[trigger]
                old(self).objects().contains(o) && start_seq <= o.sequence
                    <= end_seq implies exists|i: int|
                0 <= i < found@.len() && (#[trigger] found@[i])@ == o by {
                let k = choose|k: int| 0 <= k < self.objects().len() && self.objects()[k] == o;
                assert(order.contains(order[k]));
                assert(index.contains_key(order[k]));
                let all = vstd::std_specs::btree::spec_btree_map_iter(
                    &self.sequence_index,
                ).remaining();
                assert(all.contains((&order[k], &index[order[k]])));
                let j = choose|j: int|
                    0 <= j < all.len() && all[j] == (&order[k], &index[order[k]]);
                let i = choose|i: int|
                    0 <= i < found@.len() && (#[trigger] found@[i]).sequence == *all[j].0;
                assert(found@[i] == index[order[k]]);
            }
            let shown = found@.map_values(|o: Arc<MoqObject>| o@);
            assert forall|o: ObjectView| #[trigger]
                old(self).objects().contains(o) && start_seq <= o.sequence
                    <= end_seq implies shown.contains(o) by {
                let i = choose|i: int| 0 <= i < found@.len() && (#[trigger] found@[i])@ == o;
                assert(shown[i] == o);
            }
            assert forall|i: int, j: int|
                #![trigger shown[i], shown[j]]
                0 <= i < j < shown.len() implies shown[i].sequence < shown[j].sequence by {
                assert(found@[i]@ == shown[i] && found@[j]@ == shown[j]);
            }
        }
        found
    }

    /// The counters.
    pub fn stats(&self) -> (s: &BufferStats)
        ensures
            *s == self.counters(),
            self.wf() ==> s.total_objects == self.objects().len() && s.total_bytes == total_size(
                self.objects(),
            ),
    {
        &self.stats
    }

    /// Forgets every object but the initialization segment. The counters of evictions, hits
    /// and misses go on.
    pub fn clear(&mut self)
        ensures
            final(self).wf(),
            final(self).limits() == old(self).limits(),
            final(self).objects() == Seq::<ObjectView>::empty(),
            final(self).init() == old(self).init(),
            final(self)@ == old(self)@.after(BufferCall::Clear),
            final(self).counters() == (BufferStats {
                total_objects: 0,
                total_bytes: 0,
                ..old(self).counters()
            }),
    {
        self.sequence_index.clear();
        self.insertion_order.clear();
        self.priority_index.clear();
        self.total_bytes = 0;
        self.stats.total_objects = 0;
        self.stats.total_bytes = 0;
        assert(self.objects() =~= Seq::<ObjectView>::empty());
    }

    proof fn lemma_has_sequence(&self, sequence: u64)
        requires
            self.indexed(),
        ensures
            has_sequence(self.objects(), sequence) <==> self.sequence_index@.contains_key(sequence),
    {
        if self.sequence_index@.contains_key(sequence) {
            let i = choose|i: int|
                0 <= i < self.insertion_order@.len() && self.insertion_order@[i] == sequence;
            assert(self.objects()[i].sequence == sequence);
        }
        if has_sequence(self.objects(), sequence) {
            let i = choose|i: int|
                0 <= i < self.objects().len() && (#[trigger] self.objects()[i]).sequence
                    == sequence;
            assert(self.insertion_order@.contains(self.insertion_order@[i]));
            assert(self.sequence_index@.contains_key(self.insertion_order@[i]));
        }
    }
}

proof fn lemma_increasing(keys: Seq<u64>)
    requires
        vstd::std_specs::btree::increasing_seq(keys),
    ensures
        forall|i: int, j: int|
            #![trigger keys[i], keys[j]]
            0 <= i < j < keys.len() ==> keys[i] < keys[j],
{
    assert forall|i: int, j: int|
        #![trigger keys[i], keys[j]]
        0 <= i < j < keys.len() implies keys[i] < keys[j] by {
        assert(vstd::std_specs::cmp::OrdSpec::cmp_spec(&keys[i], &keys[j]) is Less);
    }
}

/// Where `sequence` stands in the list.
fn position_of(order: &VecDeque<u64>, sequence: u64) -> (at: usize)
    requires
        order@.contains(sequence),
    ensures
        at < order@.len(),
        order@[at as int] == sequence,
{
    let mut i: usize = 0;
    while i < order.len()
        invariant
            i <= order@.len(),
            order@.contains(sequence),
            forall|j: int| 0 <= j < i ==> order@[j] != sequence,
        decreases order@.len() - i,
    {
        if order[i] == sequence {
            return i;
        }
        i = i + 1;
    }
    i
}

/// Where `sequence` stands in the list of one priority.
fn place_of(sequences: &Vec<u64>, sequence: u64) -> (at: usize)
    requires
        sequences@.contains(sequence),
    ensures
        at < sequences@.len(),
        sequences@[at as int] == sequence,
{
    let mut i: usize = 0;
    while i < sequences.len()
        invariant
            i <= sequences@.len(),
            sequences@.contains(sequence),
            forall|j: int| 0 <= j < i ==> sequences@[j] != sequence,
        decreases sequences@.len() - i,
    {
        if sequences[i] == sequence {
            return i;
        }
        i = i + 1;
    }
    i
}

/// The last object of the lowest priority is the one to give up.
proof fn lemma_lowest_is_victim(objects: Seq<ObjectView>, p: u8, v: int, present: Set<u8>)
    requires
        is_last_of(objects, p, v),
        forall|q: u8| #[trigger] sequences_of(objects, q).len() > 0 ==> present.contains(q),
        forall|q: u8| #[trigger] present.contains(q) ==> p <= q,
    ensures
        is_victim(objects, true, v),
{
    assert forall|j: int| 0 <= j < objects.len() implies objects[v].priority <= (
    #[trigger] objects[j]).priority by {
        lemma_sequences_of_present(objects, j);
        assert(present.contains(objects[j].priority));
    }
}

/// Taking one sequence number out of a list without repetitions takes out just that one.
proof fn lemma_order_remove(order: Seq<u64>, i: int)
    requires
        order.no_duplicates(),
        0 <= i < order.len(),
    ensures
        order.remove(i).no_duplicates(),
        forall|s: u64|
            #[trigger] order.remove(i).contains(s) <==> order.contains(s) && s != order[i],
{
    let rest = order.remove(i);
    assert forall|s: u64| #[trigger] rest.contains(s) <==> order.contains(s) && s
        != order[i] by {
        if rest.contains(s) {
            let j = choose|j: int| 0 <= j < rest.len() && rest[j] == s;
            if j < i {
                assert(order[j] == s);
            } else {
                assert(order[j + 1] == s);
            }
        }
        if order.contains(s) && s != order[i] {
            let j = choose|j: int| 0 <= j < order.len() && order[j] == s;
            if j < i {
                assert(rest[j] == s);
            } else {
                assert(rest[j - 1] == s);
            }
        }
    }
}

/// Law: an object is charged for its payload, its name as it is written, and itself; some objects
/// for the sum.
pub proof fn law_what_is_charged(objects: Seq<ObjectView>, o: ObjectView)
    ensures
        object_size(o) == o.data.len() + vstd::utf8::encode_utf8(o.name).len()
            + vstd::layout::size_of::<MoqObject>(),
        total_size(Seq::<ObjectView>::empty()) == 0,
        total_size(objects.push(o)) == total_size(objects) + o.data.len()
            + vstd::utf8::encode_utf8(o.name).len() + vstd::layout::size_of::<MoqObject>(),
{
    assert(objects.push(o).drop_last() =~= objects);
}

/// Law: making room goes step by step, and no step is taken without need. Each step gives up one
/// object, and is taken only while there are as many objects as may be, or the bytes held and
/// those needed are more than may be. The object given up is the oldest, or, where priority
/// counts, one of the lowest priority with none of that priority behind it. After the last step
/// both limits leave a place, or nothing is left.
pub proof fn law_every_eviction_is_needed(
    objects: Seq<ObjectView>,
    config: RetransmissionBufferConfig,
    needed: nat,
) -> (steps: Seq<Seq<ObjectView>>)
    ensures
        steps.len() >= 1,
        steps[0] == objects,
        steps.last() == make_room(objects, config, needed),
        forall|t: int|
            0 <= t < steps.len() - 1 ==> {
                let s = #[trigger] steps[t];
                &&& s.len() >= config.max_objects || total_size(s) + needed > config.max_bytes
                &&& exists|v: int|
                    {
                        &&& 0 <= v < s.len()
                        &&& steps[t + 1] == #[trigger] s.remove(v)
                        &&& !config.priority_eviction ==> v == 0
                        &&& config.priority_eviction ==> forall|j: int|
                            0 <= j < s.len() ==> s[v].priority <= (#[trigger] s[j]).priority && (j
                                > v ==> s[v].priority < s[j].priority)
                    }
            },
        steps.last().len() == 0 || (steps.last().len() < config.max_objects && total_size(
            steps.last(),
        ) + needed <= config.max_bytes),
    decreases objects.len(),
{
    if objects.len() > 0 && is_full(objects, config, needed) {
        lemma_victim_exists(objects, config.priority_eviction);
        let v = victim(objects, config.priority_eviction);
        let rest = objects.remove(v);
        let more = law_every_eviction_is_needed(rest, config, needed);
        let steps = seq![objects] + more;
        assert forall|t: int| 0 <= t < steps.len() - 1 implies {
            let s = #[trigger] steps[t];
            &&& s.len() >= config.max_objects || total_size(s) + needed > config.max_bytes
            &&& exists|v: int|
                {
                    &&& 0 <= v < s.len()
                    &&& steps[t + 1] == #[trigger] s.remove(v)
                    &&& !config.priority_eviction ==> v == 0
                    &&& config.priority_eviction ==> forall|j: int|
                        0 <= j < s.len() ==> s[v].priority <= (#[trigger] s[j]).priority && (j > v
                            ==> s[v].priority < s[j].priority)
                }
        } by {
            if t > 0 {
                assert(steps[t] == more[t - 1]);
                assert(steps[t + 1] == more[t]);
                assert(more[t - 1 + 1] == more[t]);
            } else {
                assert(steps[0] == objects);
                assert(steps[1] == more[0]);
                assert(steps[t + 1] == objects.remove(v));
            }
        }
        steps
    } else {
        seq![objects]
    }
}

/// Law: where there are fewer objects than may be, and the bytes held and those of the new object
/// are no more than may be, adding it gives nothing up: it becomes the newest of all that was
/// there, and no eviction is counted. This holds for any object that is not an initialization
/// segment and whose number is not there yet.
pub proof fn law_within_the_limits_nothing_goes(s: BufferView, o: ObjectView)
    requires
        o.group_id != 0,
        forall|i: int| 0 <= i < s.objects.len() ==> (#[trigger] s.objects[i]).sequence != o.sequence,
        s.objects.len() < s.limits.max_objects,
        total_size(s.objects) + o.data.len() + vstd::utf8::encode_utf8(o.name).len()
            + vstd::layout::size_of::<MoqObject>() <= s.limits.max_bytes,
    ensures
        ({
            let t = s.after(BufferCall::Add(o));
            &&& t.objects == s.objects.push(o)
            &&& t.stats.evictions == s.stats.evictions
            &&& t.stats.total_objects == s.objects.len() + 1
            &&& t.stats.total_bytes == total_size(s.objects) + object_size(o)
            &&& t.stats.hits == s.stats.hits
            &&& t.stats.misses == s.stats.misses
            &&& t.init == s.init
            &&& t.limits == s.limits
        }),
{
}

/// Law: what adding an object does, whatever is there. An initialization segment, that is one of
/// group 0, replaces the one before it and nothing else. An object whose number is there, or that
/// is larger than all that may be held, or that finds no place at all, changes nothing. Any other
/// object is the newest afterwards, the others that are left are what making room leaves, and as
/// many evictions are counted as objects are gone.
pub proof fn law_what_adding_does(s: BufferView, o: ObjectView)
    ensures
        ({
            let t = s.after(BufferCall::Add(o));
            let size = o.data.len() + vstd::utf8::encode_utf8(o.name).len() + vstd::layout::size_of::<
                MoqObject,
            >();
            let held = exists|i: int|
                0 <= i < s.objects.len() && (#[trigger] s.objects[i]).sequence == o.sequence;
            if o.group_id == 0 {
                &&& t.init == Some(o)
                &&& t.objects == s.objects
                &&& t.stats == s.stats
                &&& t.limits == s.limits
            } else if held || size > s.limits.max_bytes || s.limits.max_objects == 0 {
                t == s
            } else {
                &&& t.objects.len() >= 1
                &&& t.objects.last() == o
                &&& t.objects.drop_last() == make_room(s.objects, s.limits, size)
                &&& t.stats.evictions + t.objects.len() == s.stats.evictions + s.objects.len() + 1
                &&& t.stats.hits == s.stats.hits
                &&& t.stats.misses == s.stats.misses
                &&& t.init == s.init
                &&& t.limits == s.limits
            }
        }),
{
    let kept = make_room(s.objects, s.limits, object_size(o));
    lemma_make_room_len(s.objects, s.limits, object_size(o));
    assert(kept.push(o).drop_last() =~= kept);
}

/// Law: where age decides, the objects left are the newest, and as many of them as the limits
/// leave a place for beside the new one.
pub proof fn law_newest_stay_by_age(
    objects: Seq<ObjectView>,
    config: RetransmissionBufferConfig,
    needed: nat,
) -> (gone: int)
    requires
        !config.priority_eviction,
    ensures
        0 <= gone <= objects.len(),
        make_room(objects, config, needed) == objects.skip(gone),
        forall|k: int|
            0 <= k < gone ==> (#[trigger] objects.skip(k)).len() >= config.max_objects || total_size(
                objects.skip(k),
            ) + needed > config.max_bytes,
        gone == objects.len() || (objects.skip(gone).len() < config.max_objects && total_size(
            objects.skip(gone),
        ) + needed <= config.max_bytes),
    decreases objects.len(),
{
    assert(objects.skip(0) =~= objects);
    if objects.len() > 0 && is_full(objects, config, needed) {
        lemma_victim_is(objects, false, 0);
        let rest = objects.remove(0);
        assert(rest =~= objects.skip(1));
        let g = law_newest_stay_by_age(rest, config, needed);
        assert(rest.skip(g) =~= objects.skip(g + 1));
        assert forall|k: int| 0 <= k < g + 1 implies (#[trigger] objects.skip(k)).len()
            >= config.max_objects || total_size(objects.skip(k)) + needed > config.max_bytes by {
            if k > 0 {
                assert(rest.skip(k - 1) =~= objects.skip(k));
            }
        }
        g + 1
    } else {
        0
    }
}

/// Law: what a look-up gives. The initialization segment where the number is its own; else the
/// buffered object with that number; nothing only where none has it.
pub proof fn law_what_a_look_up_gives(s: BufferView, sequence: u64, i: int)
    requires
        s.is_consistent(),
    ensures
        s.init is Some && s.init->0.sequence == sequence ==> s.lookup(sequence) == s.init,
        (s.init is None || s.init->0.sequence != sequence) && 0 <= i < s.objects.len()
            && s.objects[i].sequence == sequence ==> s.lookup(sequence) == Some(s.objects[i]),
        (s.init is None || s.init->0.sequence != sequence) && (forall|j: int|
            0 <= j < s.objects.len() ==> (#[trigger] s.objects[j]).sequence != sequence)
            ==> s.lookup(sequence) is None,
{
    if 0 <= i < s.objects.len() && s.objects[i].sequence == sequence {
        let j = choose|j: int|
            0 <= j < s.objects.len() && (#[trigger] s.objects[j]).sequence == sequence;
        assert(i == j || i < j || j < i);
    }
}

/// Law: looking up changes nothing but one counter, the hits where something was found and the
/// misses where not. A range changes nothing at all. Clearing takes every object out and keeps
/// the initialization segment, the limits, and the counters of what has happened.
pub proof fn law_what_the_others_do(s: BufferView, sequence: u64, from: u64, to: u64)
    ensures
        ({
            let t = s.after(BufferCall::Get(sequence));
            &&& t.objects == s.objects
            &&& t.init == s.init
            &&& t.limits == s.limits
            &&& t.stats.total_objects == s.stats.total_objects
            &&& t.stats.total_bytes == s.stats.total_bytes
            &&& t.stats.evictions == s.stats.evictions
            &&& s.lookup(sequence) is Some ==> t.stats.hits == s.stats.hits + 1 && t.stats.misses
                == s.stats.misses
            &&& s.lookup(sequence) is None ==> t.stats.hits == s.stats.hits && t.stats.misses
                == s.stats.misses + 1
        }),
        s.after(BufferCall::GetRange(from, to)) == s,
        ({
            let t = s.after(BufferCall::Clear);
            &&& t.objects.len() == 0
            &&& t.init == s.init
            &&& t.limits == s.limits
            &&& t.stats.total_objects == 0
            &&& t.stats.total_bytes == 0
            &&& t.stats.evictions == s.stats.evictions
            &&& t.stats.hits == s.stats.hits
            &&& t.stats.misses == s.stats.misses
        }),
{
}

/// Law: the counters are shown as they are.
pub proof fn law_counters_are_shown(s: BufferStats)
    ensures
        s@.total_objects == s.total_objects,
        s@.total_bytes == s.total_bytes,
        s@.evictions == s.evictions,
        s@.hits == s.hits,
        s@.misses == s.misses,
{
}

/// Law: a new buffer holds nothing, has no initialization segment, and has counted nothing.
pub proof fn law_a_new_buffer_is_empty(limits: RetransmissionBufferConfig, sequence: u64)
    ensures
        ({
            let s = BufferView::fresh(limits);
            &&& s.objects.len() == 0
            &&& s.init is None
            &&& s.limits == limits
            &&& s.stats.evictions == 0
            &&& s.stats.hits == 0
            &&& s.stats.misses == 0
            &&& s.stats.total_objects == 0
            &&& s.stats.total_bytes == 0
            &&& s.lookup(sequence) is None
        }),
{
}

/// Law: what a range gives. Every object that is there with a number in the range, none with a
/// number outside it, none twice, by increasing number.
pub proof fn law_what_a_range_gives(
    objects: Seq<ObjectView>,
    from: u64,
    to: u64,
    found: Seq<ObjectView>,
    i: int,
    j: int,
)
    requires
        is_range(objects, from, to, found),
        0 <= i < objects.len(),
    ensures
        from <= objects[i].sequence <= to ==> found.contains(objects[i]),
        found.contains(objects[i]) ==> from <= objects[i].sequence <= to,
        0 <= j < found.len() ==> objects.contains(found[j]),
        0 <= j < found.len() - 1 ==> found[j].sequence < found[j + 1].sequence,
        found.no_duplicates(),
{
    assert(objects.contains(objects[i]));
    if found.contains(objects[i]) {
        let k = choose|k: int| 0 <= k < found.len() && found[k] == objects[i];
        assert(from <= found[k].sequence <= to);
    }
    assert forall|a: int, b: int|
        0 <= a < found.len() && 0 <= b < found.len() && a != b implies found[a] != found[b] by {
        if a < b {
            assert(found[a].sequence < found[b].sequence);
        } else {
            assert(found[b].sequence < found[a].sequence);
        }
    }
}

} // verus!

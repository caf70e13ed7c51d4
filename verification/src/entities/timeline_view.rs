//! What a timeline holds and how adding and sampling act on it, over plain
//! values.

use crate::trade_house::{Event, TradeAction};
use crate::{SimulationError, MAX_RANDOM_PREFERENCE, TIMELINE_SIZE_LIMIT};
use vstd::prelude::*;

verus! {

/// What a timeline holds, as plain values.
pub struct TimelineView {
    /// The events, by buffer slot.
    pub data: Seq<Event>,
    /// The slot at which overwriting starts once the buffer is full.
    pub target_index: nat,
    /// The largest number of events the buffer keeps.
    pub capacity: nat,
}

/// The slot that comes `steps` slots after slot `start` in a ring of `ring`
/// slots, in which slot 0 comes after the last slot.
pub open spec fn ring_slot(start: int, steps: int, ring: int) -> int {
    (start + steps) % ring
}

/// The buffer after events were written into it one by one: the first into
/// slot `start`, each next into the slot after, slot 0 coming after the last
/// slot. A buffer without slots takes none.
pub open spec fn written(buffer: Seq<Event>, start: int, events: Seq<Event>) -> Seq<Event>
    decreases events.len(),
{
    if events.len() == 0 || buffer.len() == 0 {
        buffer
    } else {
        written(buffer, start, events.drop_last()).update(
            ring_slot(start, events.len() - 1, buffer.len() as int),
            events.last(),
        )
    }
}

impl TimelineView {
    /// The buffer is not over its capacity and the start slot lies in it.
    pub open spec fn wf(self) -> bool {
        self.target_index <= self.data.len() <= self.capacity
    }

    /// The timeline after `incoming` was added.
    ///
    /// A full buffer takes the events one by one into the slots from
    /// `target_index` on, slot 0 coming after the last slot, and
    /// `target_index` stays. A buffer with room for all of them appends them.
    /// Otherwise the free slots are filled first and the rest is written
    /// into the slots from 0 on, slot 0 again coming after the last slot;
    /// `target_index` becomes the slot after the one written last.
    pub open spec fn add(self, incoming: Seq<Event>) -> TimelineView {
        let free = self.capacity - self.data.len();
        if self.data.len() == self.capacity {
            TimelineView { data: written(self.data, self.target_index as int, incoming), ..self }
        } else if incoming.len() <= free {
            TimelineView { data: self.data + incoming, ..self }
        } else {
            let rest = incoming.skip(free);
            TimelineView {
                data: written(self.data + incoming.take(free), 0, rest),
                target_index: (ring_slot(0, rest.len() - 1, self.capacity as int) + 1) as nat,
                capacity: self.capacity,
            }
        }
    }

    /// The turn at which `slot` is written when events go into a full
    /// buffer: the slot at `target_index` comes first, the one before it
    /// last.
    pub open spec fn turn(self, slot: int) -> int {
        (slot + self.data.len() - self.target_index) % (self.data.len() as int)
    }

    /// The number of positions that a draw with a recency window of
    /// `bias_size` chooses among: the window, or the whole buffer where the
    /// window is not smaller.
    pub open spec fn window(self, bias_size: nat) -> nat {
        if bias_size >= self.data.len() {
            self.data.len()
        } else {
            bias_size
        }
    }

    /// The slot that position `draw` of a recency window of `bias_size`
    /// stands for.
    ///
    /// A window that is not smaller than the buffer covers it slot by slot. A
    /// smaller window that ends before `target_index` is the `bias_size`
    /// slots before `target_index`. Otherwise its positions below
    /// `target_index` are those slots, and the others count back from the
    /// last slot.
    pub open spec fn recency_slot(self, bias_size: nat, draw: nat) -> int {
        if bias_size >= self.data.len() {
            draw as int
        } else if bias_size < self.target_index {
            draw + (self.target_index - bias_size)
        } else if draw < self.target_index {
            draw as int
        } else {
            self.data.len() - (draw - self.target_index) - 1
        }
    }

    /// The timeline after the companies 0, 1, 2 and so on were given buy
    /// signals, one company after the other, company `c` as many as
    /// `weights[c]` says.
    pub open spec fn leaning(self, weights: Seq<u64>) -> TimelineView
        decreases weights.len(),
    {
        if weights.len() == 0 {
            self
        } else {
            self.leaning(weights.drop_last()).add(
                repeated(((weights.len() - 1) as u64, TradeAction::Buy), weights.last() as nat),
            )
        }
    }

    /// `after` is this timeline with random buy signals for each of
    /// `num_of_companies` companies: some number below
    /// `MAX_RANDOM_PREFERENCE` for each.
    pub open spec fn leans_to(self, after: TimelineView, num_of_companies: u64) -> bool {
        exists|weights: Seq<u64>|
            drawn_weights(weights, num_of_companies) && after == #[trigger] self.leaning(weights)
    }
}

/// An empty timeline of the default capacity.
pub open spec fn fresh_timeline() -> TimelineView {
    TimelineView { data: Seq::empty(), target_index: 0, capacity: TIMELINE_SIZE_LIMIT as nat }
}

/// `weight` copies of one event.
pub open spec fn repeated(event: Event, weight: nat) -> Seq<Event> {
    Seq::new(weight, |i: int| event)
}

/// One weight for each of `num_of_companies` companies, each below
/// `MAX_RANDOM_PREFERENCE`.
pub open spec fn drawn_weights(weights: Seq<u64>, num_of_companies: u64) -> bool {
    &&& weights.len() == num_of_companies
    &&& forall|company: int|
        0 <= company < weights.len() ==> #[trigger] weights[company] < MAX_RANDOM_PREFERENCE
}

/// What `Preferences::add` and `Preferences::sub` return and leave behind:
/// the agent's timeline is given `weight` copies of `event`, and an id
/// without a timeline is `AgentNotFound`.
pub open spec fn signalled(
    preferences: Seq<TimelineView>,
    agent_id: u64,
    event: Event,
    weight: u64,
) -> (Seq<TimelineView>, Result<(), SimulationError>) {
    if agent_id >= preferences.len() {
        (preferences, Err(SimulationError::AgentNotFound(agent_id)))
    } else {
        (
            preferences.update(
                agent_id as int,
                preferences[agent_id as int].add(repeated(event, weight as nat)),
            ),
            Ok(()),
        )
    }
}

/// In a ring, the slot after a slot is the next one, or slot 0 after the
/// last.
pub proof fn lemma_next_slot(start: int, steps: int, ring: int)
    requires
        0 <= start,
        0 <= steps,
        0 < ring,
    ensures
        0 <= ring_slot(start, steps, ring) < ring,
        ring_slot(start, steps + 1, ring) == if ring_slot(start, steps, ring) + 1 == ring {
            0
        } else {
            ring_slot(start, steps, ring) + 1
        },
{
    let position = start + steps;
    vstd::arithmetic::div_mod::lemma_fundamental_div_mod(position, ring);
    vstd::arithmetic::div_mod::lemma_mod_bound(position, ring);
    let rounds = position / ring;
    let slot = position % ring;
    assert((rounds + 1) * ring == rounds * ring + ring) by (nonlinear_arith);
    assert(ring * rounds == rounds * ring) by (nonlinear_arith);
    if slot + 1 == ring {
        vstd::arithmetic::div_mod::lemma_fundamental_div_mod_converse(
            position + 1,
            ring,
            rounds + 1,
            0,
        );
    } else {
        vstd::arithmetic::div_mod::lemma_fundamental_div_mod_converse(
            position + 1,
            ring,
            rounds,
            slot + 1,
        );
    }
}

/// Within the first round through a ring, the slot that comes `steps` after
/// `start` is `start + steps`, less the ring where that is past the last
/// slot.
pub proof fn lemma_first_round(start: int, steps: int, ring: int)
    requires
        0 <= start <= ring,
        0 <= steps < ring,
    ensures
        ring_slot(start, steps, ring) == if start + steps < ring {
            start + steps
        } else {
            start + steps - ring
        },
{
    if start + steps < ring {
        vstd::arithmetic::div_mod::lemma_fundamental_div_mod_converse(
            start + steps,
            ring,
            0,
            start + steps,
        );
    } else {
        vstd::arithmetic::div_mod::lemma_fundamental_div_mod_converse(
            start + steps,
            ring,
            1,
            start + steps - ring,
        );
    }
}

/// In a ring of `len` slots that starts at `target`, the turn of a slot is
/// its distance from `target`, going round.
pub proof fn lemma_turn_of_slot(slot: int, len: int, target: int)
    requires
        0 <= slot < len,
        0 <= target <= len,
    ensures
        0 <= (slot + len - target) % len < len,
        (slot + len - target) % len == if slot >= target {
            slot - target
        } else {
            slot + len - target
        },
{
    if slot >= target {
        vstd::arithmetic::div_mod::lemma_fundamental_div_mod_converse(
            slot + len - target,
            len,
            1,
            slot - target,
        );
    } else {
        vstd::arithmetic::div_mod::lemma_fundamental_div_mod_converse(
            slot + len - target,
            len,
            0,
            slot + len - target,
        );
    }
}

/// Writing events into a buffer leaves it as long as it was.
pub proof fn lemma_written_len(buffer: Seq<Event>, start: int, events: Seq<Event>)
    requires
        0 <= start,
    ensures
        written(buffer, start, events).len() == buffer.len(),
    decreases events.len(),
{
    if events.len() > 0 && buffer.len() > 0 {
        lemma_written_len(buffer, start, events.drop_last());
        lemma_next_slot(start, events.len() - 1, buffer.len() as int);
    }
}

/// A full timeline that is given no more events than it has slots holds
/// each of them in the slot whose turn it is, and keeps the others.
pub proof fn lemma_written_once(timeline: TimelineView, events: Seq<Event>)
    requires
        timeline.wf(),
        events.len() <= timeline.data.len(),
    ensures
        written(timeline.data, timeline.target_index as int, events).len() == timeline.data.len(),
        forall|slot: int|
            0 <= slot < timeline.data.len() ==> #[trigger] written(
                timeline.data,
                timeline.target_index as int,
                events,
            )[slot] == if timeline.turn(slot) < events.len() {
                events[timeline.turn(slot)]
            } else {
                timeline.data[slot]
            },
    decreases events.len(),
{
    let len = timeline.data.len() as int;
    let target = timeline.target_index as int;
    lemma_written_len(timeline.data, target, events);
    if events.len() == 0 {
        assert forall|slot: int| 0 <= slot < len implies timeline.turn(slot) >= 0 by {
            lemma_turn_of_slot(slot, len, target);
        }
    } else {
        let earlier = events.drop_last();
        let last = events.len() - 1;
        lemma_written_once(timeline, earlier);
        lemma_written_len(timeline.data, target, earlier);
        lemma_first_round(target, last, len);
        assert forall|slot: int| 0 <= slot < len implies #[trigger] written(
            timeline.data,
            target,
            events,
        )[slot] == if timeline.turn(slot) < events.len() {
            events[timeline.turn(slot)]
        } else {
            timeline.data[slot]
        } by {
            lemma_turn_of_slot(slot, len, target);
        }
    }
}

/// Copies of one event that go at least once round a buffer leave nothing
/// but that event in it.
pub proof fn lemma_written_round(buffer: Seq<Event>, start: int, event: Event, copies: nat)
    requires
        0 <= start <= buffer.len(),
        copies >= buffer.len(),
    ensures
        written(buffer, start, repeated(event, copies)) == repeated(event, buffer.len()),
    decreases copies,
{
    let events = repeated(event, copies);
    lemma_written_len(buffer, start, events);
    if buffer.len() == 0 {
        assert(written(buffer, start, events) =~= repeated(event, buffer.len()));
    } else if copies == buffer.len() {
        let full = TimelineView {
            data: buffer,
            target_index: start as nat,
            capacity: buffer.len(),
        };
        lemma_written_once(full, events);
        assert forall|slot: int| 0 <= slot < buffer.len() implies written(
            buffer,
            start,
            events,
        )[slot] == event by {
            lemma_turn_of_slot(slot, buffer.len() as int, start);
        }
        assert(written(buffer, start, events) =~= repeated(event, buffer.len()));
    } else {
        assert(events.drop_last() =~= repeated(event, (copies - 1) as nat));
        lemma_written_round(buffer, start, event, (copies - 1) as nat);
        lemma_next_slot(start, copies - 1, buffer.len() as int);
        assert(written(buffer, start, events) =~= repeated(event, buffer.len()));
    }
}

/// Adding events keeps a timeline within its capacity.
pub proof fn lemma_add_keeps_capacity(timeline: TimelineView, incoming: Seq<Event>)
    requires
        timeline.wf(),
    ensures
        timeline.add(incoming).wf(),
        timeline.add(incoming).capacity == timeline.capacity,
        timeline.add(incoming).data.len() >= timeline.data.len(),
{
    let free = timeline.capacity - timeline.data.len();
    if timeline.data.len() == timeline.capacity {
        lemma_written_len(timeline.data, timeline.target_index as int, incoming);
    } else if incoming.len() > free {
        let rest = incoming.skip(free);
        lemma_written_len(timeline.data + incoming.take(free), 0, rest);
        lemma_next_slot(0, rest.len() - 1, timeline.capacity as int);
    }
}

/// An empty timeline that is given exactly as many events as it can keep
/// holds those events, in the order in which they came.
pub proof fn lemma_add_fills_empty(timeline: TimelineView, incoming: Seq<Event>)
    requires
        timeline.wf(),
        timeline.data.len() == 0,
        incoming.len() == timeline.capacity,
    ensures
        timeline.add(incoming).data == incoming,
        timeline.add(incoming).data.len() == timeline.capacity,
{
    assert(timeline.add(incoming).data =~= incoming);
}

/// An empty timeline that is given copies of one event holds nothing but
/// that event, and it holds some unless it was given none or can keep none.
pub proof fn lemma_single_signal(timeline: TimelineView, event: Event, weight: nat)
    requires
        timeline.wf(),
        timeline.data.len() == 0,
    ensures
        timeline.add(repeated(event, weight)).data == repeated(
            event,
            if weight <= timeline.capacity {
                weight
            } else {
                timeline.capacity
            },
        ),
{
    let incoming = repeated(event, weight);
    if timeline.capacity == 0 {
        assert(timeline.add(incoming).data =~= repeated(event, 0));
    } else if weight <= timeline.capacity {
        assert(timeline.add(incoming).data =~= incoming);
    } else {
        let free = timeline.capacity as int;
        let filled = timeline.data + incoming.take(free);
        let copies = (weight - free) as nat;
        assert(incoming.skip(free) =~= repeated(event, copies));
        assert(filled =~= repeated(event, timeline.capacity));
        lemma_written_same(filled, 0, event, copies);
    }
}

/// Copies of an event that are written into a buffer of nothing but that
/// event change nothing.
pub proof fn lemma_written_same(buffer: Seq<Event>, start: int, event: Event, copies: nat)
    requires
        0 <= start,
        buffer == repeated(event, buffer.len()),
    ensures
        written(buffer, start, repeated(event, copies)) == buffer,
    decreases copies,
{
    if copies > 0 && buffer.len() > 0 {
        assert(repeated(event, copies).drop_last() =~= repeated(event, (copies - 1) as nat));
        lemma_written_same(buffer, start, event, (copies - 1) as nat);
        lemma_next_slot(start, copies - 1, buffer.len() as int);
        assert(written(buffer, start, repeated(event, copies)) =~= buffer);
    }
}

/// The number of copies of one event that do to a timeline what `weight`
/// copies do: none for a timeline that keeps nothing; else `weight` itself,
/// unless that is more than fills the free slots and goes twice round the
/// buffer; then what fills the free slots, one round, and as far into the
/// next as `weight` copies end.
pub open spec fn telling_copies(timeline: TimelineView, weight: nat) -> nat {
    let free = timeline.capacity - timeline.data.len();
    if timeline.capacity == 0 {
        0
    } else if weight <= free + 2 * timeline.capacity {
        weight
    } else {
        (free + timeline.capacity + ring_slot(0, weight - free - 1, timeline.capacity as int)
            + 1) as nat
    }
}

/// `telling_copies` of an event do to a timeline what `weight` copies do.
pub proof fn lemma_telling_copies(timeline: TimelineView, event: Event, weight: nat)
    requires
        timeline.wf(),
    ensures
        telling_copies(timeline, weight) <= weight,
        timeline.add(repeated(event, telling_copies(timeline, weight))) == timeline.add(
            repeated(event, weight),
        ),
{
    let ring = timeline.capacity as int;
    let free = ring - timeline.data.len();
    let copies = telling_copies(timeline, weight);
    if ring == 0 {
        assert(timeline.add(repeated(event, copies)).data =~= timeline.add(
            repeated(event, weight),
        ).data);
    } else if weight > free + 2 * ring {
        let beyond = ring_slot(0, weight - free - 1, ring);
        lemma_next_slot(0, weight - free - 1, ring);
        let more = repeated(event, weight);
        let fewer = repeated(event, copies);
        if free == 0 {
            lemma_written_round(timeline.data, timeline.target_index as int, event, weight);
            lemma_written_round(timeline.data, timeline.target_index as int, event, copies);
        } else {
            let filled = timeline.data + more.take(free);
            assert(fewer.take(free) =~= more.take(free));
            assert(more.skip(free) =~= repeated(event, (weight - free) as nat));
            assert(fewer.skip(free) =~= repeated(event, (copies - free) as nat));
            lemma_written_round(filled, 0, event, (weight - free) as nat);
            lemma_written_round(filled, 0, event, (copies - free) as nat);
            assert(ring_slot(0, copies - free - 1, ring) == beyond) by {
                vstd::arithmetic::div_mod::lemma_fundamental_div_mod_converse(
                    ring + beyond,
                    ring,
                    1,
                    beyond,
                );
            }
        }
    }
}

/// A recency window that is not smaller than the buffer chooses among the
/// same slots as an even draw from the whole buffer, position by position.
pub proof fn lemma_full_window_is_whole_buffer(timeline: TimelineView, bias_size: nat, draw: nat)
    requires
        bias_size >= timeline.data.len(),
    ensures
        timeline.window(bias_size) == timeline.data.len(),
        timeline.recency_slot(bias_size, draw) == draw,
{
}

/// Every position of a recency window stands for a slot of the buffer, and
/// two positions never stand for the same slot.
pub proof fn lemma_recency_slots_distinct(
    timeline: TimelineView,
    bias_size: nat,
    draw: nat,
    other: nat,
)
    requires
        timeline.wf(),
        draw < timeline.window(bias_size),
        other < timeline.window(bias_size),
    ensures
        0 <= timeline.recency_slot(bias_size, draw) < timeline.data.len(),
        timeline.recency_slot(bias_size, draw) == timeline.recency_slot(bias_size, other) ==> draw
            == other,
{
}

} // verus!

//! The event queue: a ring of fill and out events behind a small header.

use crate::dex::bytes::{
    ends_with_tail_tag, has_head_tag, has_tail_tag, le_u128, le_u64, read_u128, read_u64,
};
use crate::dex::cast::slots;
use crate::dex::error::FormatError;
use crate::dex::flags::{
    flag_word, lemma_event_queue_flags_exact, AccountFlag, EventFlag, EVENT_QUEUE_FLAGS,
};
use crate::dex::header::{frame_error, validate};
use crate::pubkey::{pubkey_at, Pubkey};
use vstd::arithmetic::div_mod::{lemma_mod_add_multiples_vanish, lemma_small_mod, lemma_sub_mod_noop};
use vstd::prelude::*;
use vstd::slice::slice_subrange;

verus! {

/// The length in bytes of the queue's header.
pub const EVENT_QUEUE_HEADER_LEN: usize = 37;

/// The length in bytes of one event slot.
pub const EVENT_LEN: usize = 88;

/// The length in bytes of the tag that closes the queue.
pub const TAIL_TAG_LEN: usize = 7;

/// The modulus of sequence numbers: the producer counts events in 32 bits.
pub const SEQ_MOD: u64 = 0x1_0000_0000;

/// The header of an event queue. `head` is the slot of the oldest live
/// event, `count` the number of live events, and `seq_num` the number of
/// events ever appended, which wraps at 2^32.
#[derive(Clone, Copy, Debug, PartialEq, Eq, Structural)]
pub struct EventQueueHeader {
    pub account_flags: u64,
    pub head: u64,
    pub count: u64,
    pub seq_num: u64,
}

/// One fill or out notification.
#[derive(Clone, Copy, Debug, PartialEq, Eq, Structural)]
pub struct Event {
    pub event_flags: u8,
    pub owner_slot: u8,
    pub fee_tier: u8,
    pub native_qty_released: u64,
    pub native_qty_paid: u64,
    pub native_fee_or_rebate: u64,
    pub order_id: u128,
    pub control: Pubkey,
    pub client_order_id: u64,
}

/// The events missed since a cursor, with the cursor to keep for the next
/// call.
#[derive(Debug)]
pub struct Replay {
    /// Each replayed event with its sequence number, oldest first.
    pub events: Vec<(u64, Event)>,
    /// The queue's sequence number, reduced modulo 2^32.
    pub seq_num: u64,
    /// Whether more events were missed than the queue holds, so that some
    /// are lost for good.
    pub gap: bool,
}

/// Why a buffer is no queue header, or `None` if it is one: a header is 37
/// bytes long, has no tail tag of its own, and is flagged as initialized
/// and event queue, no more and no less.
pub open spec fn header_error(b: Seq<u8>) -> Option<FormatError> {
    frame_error(b, EVENT_QUEUE_HEADER_LEN as nat, false, EVENT_QUEUE_FLAGS)
}

/// The header whose fields the first 37 bytes of `b` spell.
pub open spec fn header_at(b: Seq<u8>) -> EventQueueHeader {
    EventQueueHeader {
        account_flags: le_u64(b, 5) as u64,
        head: le_u64(b, 13) as u64,
        count: le_u64(b, 21) as u64,
        seq_num: le_u64(b, 29) as u64,
    }
}

/// The event that the 88-byte slot `b` spells.
pub open spec fn event_at(b: Seq<u8>) -> Event {
    Event {
        event_flags: b[0],
        owner_slot: b[1],
        fee_tier: b[2],
        native_qty_released: le_u64(b, 8) as u64,
        native_qty_paid: le_u64(b, 16) as u64,
        native_fee_or_rebate: le_u64(b, 24) as u64,
        order_id: le_u128(b, 32) as u128,
        control: pubkey_at(b, 48),
        client_order_id: le_u64(b, 80) as u64,
    }
}

/// The number of event slots in a queue buffer of `len` bytes: what is left
/// after the header and the closing tag, in whole slots.
pub open spec fn queue_capacity(len: nat) -> nat {
    ((len - EVENT_QUEUE_HEADER_LEN - TAIL_TAG_LEN) / (EVENT_LEN as int)) as nat
}

/// The bytes of event slot `i` in the queue buffer `b`.
pub open spec fn event_bytes(b: Seq<u8>, i: int) -> Seq<u8> {
    b.subrange(EVENT_QUEUE_HEADER_LEN + i * EVENT_LEN, EVENT_QUEUE_HEADER_LEN + i * EVENT_LEN + EVENT_LEN)
}

/// Why a buffer is no event queue, or `None` if it is one. In this order:
/// it is too short for header and closing tag; a tag is missing; the flags
/// are not those of an event queue.
pub open spec fn queue_error(b: Seq<u8>) -> Option<FormatError> {
    if b.len() < EVENT_QUEUE_HEADER_LEN + TAIL_TAG_LEN {
        Some(FormatError::SizeMismatch)
    } else if !has_head_tag(b) || !has_tail_tag(b) {
        Some(FormatError::BadMagic)
    } else if le_u64(b, 5) != EVENT_QUEUE_FLAGS {
        Some(FormatError::BadFlags)
    } else {
        None
    }
}

/// Every slot of the queue buffer `b` as an event, in the order of the
/// slots.
pub open spec fn queue_events(b: Seq<u8>) -> Seq<Event> {
    Seq::new(queue_capacity(b.len()), |i: int| event_at(event_bytes(b, i)))
}

/// The live events of a queue, oldest first: from slot `head` on, round the
/// ring, `count` of them, and never more than the ring has slots.
pub open spec fn live_window(header: EventQueueHeader, events: Seq<Event>) -> Seq<Event> {
    let cap = events.len() as int;
    let n = if header.count <= cap {
        header.count as int
    } else {
        cap
    };
    Seq::new(n as nat, |i: int| events[(header.head + i) % cap])
}

/// How many events were appended since the cursor `last_seq_num`, counted
/// modulo 2^32 as the producer counts.
pub open spec fn missed_since(seq_num: u64, last_seq_num: u64) -> int {
    (seq_num - last_seq_num) % (SEQ_MOD as int)
}

/// Whether a reader at `last_seq_num` has missed more events than a ring of
/// `cap` slots holds.
pub open spec fn has_gap(seq_num: u64, last_seq_num: u64, cap: int) -> bool {
    missed_since(seq_num, last_seq_num) > cap
}

/// How many events a replay yields: all that were missed, or, when that is
/// more than the ring holds, one less than the ring has slots (none from a
/// ring without slots).
pub open spec fn replay_len(seq_num: u64, last_seq_num: u64, cap: int) -> int {
    let missed = missed_since(seq_num, last_seq_num);
    if missed <= cap {
        missed
    } else if cap > 0 {
        cap - 1
    } else {
        0
    }
}

/// The replay for a reader at `last_seq_num`: the newest events up to the
/// end of the queue, each with its sequence number. The first of them has
/// the number `seq_num` less the length of the replay, and lies that many
/// slots before the slot after the last live event; numbers wrap at 2^32,
/// slots at the length of the ring.
pub open spec fn replay(header: EventQueueHeader, last_seq_num: u64, events: Seq<Event>) -> Seq<
    (u64, Event),
> {
    let cap = events.len() as int;
    let n = replay_len(header.seq_num, last_seq_num, cap);
    let start_seq = (header.seq_num - n) % (SEQ_MOD as int);
    let end = (header.head + header.count) % cap;
    let start = (end - n) % cap;
    Seq::new(
        n as nat,
        |i: int| (((start_seq + i) % (SEQ_MOD as int)) as u64, events[(start + i) % cap]),
    )
}

/// A buffer long enough for a queue, with both tags, decodes exactly when
/// its flags are initialized and event queue and no other; with any other
/// set of flags it is refused for its flags.
pub proof fn lemma_queue_accepts_exact_flags(b: Seq<u8>, flags: Set<AccountFlag>)
    requires
        b.len() >= EVENT_QUEUE_HEADER_LEN + TAIL_TAG_LEN,
        has_head_tag(b),
        has_tail_tag(b),
        le_u64(b, 5) == flag_word(flags),
    ensures
        queue_error(b) is None <==> flags =~= set![
            AccountFlag::Initialized,
            AccountFlag::EventQueue,
        ],
        queue_error(b) is Some ==> queue_error(b) == Some(FormatError::BadFlags),
{
    lemma_event_queue_flags_exact(flags);
}

/// Between two cursors below 2^32 the count of missed events is their plain
/// difference, or, where the queue's number has wrapped past the cursor,
/// the difference made up by 2^32: never negative, never 2^32 or more.
pub proof fn lemma_missed_across_wrap(seq_num: u64, last_seq_num: u64)
    requires
        seq_num < SEQ_MOD,
        last_seq_num < SEQ_MOD,
    ensures
        missed_since(seq_num, last_seq_num) == if seq_num >= last_seq_num {
            seq_num - last_seq_num
        } else {
            seq_num + SEQ_MOD - last_seq_num
        },
{
}

/// A replay holds what was missed, and when that is more than a ring with
/// slots holds, one event less than the ring has slots.
pub proof fn lemma_replay_len(header: EventQueueHeader, last_seq_num: u64, events: Seq<Event>)
    ensures
        replay(header, last_seq_num, events).len() == replay_len(
            header.seq_num,
            last_seq_num,
            events.len() as int,
        ),
        !has_gap(header.seq_num, last_seq_num, events.len() as int) ==> replay(
            header,
            last_seq_num,
            events,
        ).len() == missed_since(header.seq_num, last_seq_num),
        has_gap(header.seq_num, last_seq_num, events.len() as int) && events.len() > 0 ==> replay(
            header,
            last_seq_num,
            events,
        ).len() == events.len() - 1,
{
}

/// The sequence numbers of a replay count up to the queue's own: the
/// event `k` places before the end of the replay has the queue's number
/// less `k`, modulo 2^32.
pub proof fn lemma_replay_numbers(
    header: EventQueueHeader,
    last_seq_num: u64,
    events: Seq<Event>,
    k: int,
)
    requires
        0 <= k < replay(header, last_seq_num, events).len(),
    ensures
        replay(header, last_seq_num, events)[k].0 == (header.seq_num - replay(
            header,
            last_seq_num,
            events,
        ).len() + k) % (SEQ_MOD as int),
{
}

/// Where head and count fit the ring, the live window is two runs of
/// slots: from `head` to the end of the ring or of the window, then from
/// slot 0 for what is left of the window.
pub proof fn lemma_live_window_two_runs(header: EventQueueHeader, events: Seq<Event>)
    requires
        header.head < events.len(),
        header.count <= events.len(),
    ensures
        live_window(header, events) == if header.head + header.count <= events.len() {
            events.subrange(header.head as int, header.head + header.count)
        } else {
            events.subrange(header.head as int, events.len() as int) + events.subrange(
                0,
                header.head + header.count - events.len(),
            )
        },
{
    let cap = events.len() as int;
    let live = live_window(header, events);
    assert forall|i: int| 0 <= i < header.count implies #[trigger] live[i] == events[if header.head
        + i < cap {
        header.head + i
    } else {
        header.head + i - cap
    }] by {
        if header.head + i < cap {
            lemma_small_mod((header.head + i) as nat, cap as nat);
        } else {
            lemma_mod_add_multiples_vanish(header.head + i - cap, cap);
            lemma_small_mod((header.head + i - cap) as nat, cap as nat);
        }
    }
    if header.head + header.count <= cap {
        assert(live =~= events.subrange(header.head as int, header.head + header.count));
    } else {
        assert(live =~= events.subrange(header.head as int, cap) + events.subrange(
            0,
            header.head + header.count - cap,
        ));
    }
}

impl EventQueueHeader {
    /// Decodes a queue header. The buffer is accepted if and only if it is
    /// 37 bytes long, opens with the head tag and carries exactly the flag
    /// word of an event queue.
    pub fn deserialize(buf: &[u8]) -> (r: Result<EventQueueHeader, FormatError>)
        ensures
            r == match header_error(buf@) {
                Some(e) => Err::<EventQueueHeader, FormatError>(e),
                None => Ok(header_at(buf@)),
            },
    {
        let rec: &[u8; 37] = match validate::<37>(buf, false, EVENT_QUEUE_FLAGS) {
            Ok(rec) => rec,
            Err(e) => {
                return Err(e);
            },
        };
        let b: &[u8] = rec.as_slice();
        let account_flags: u64 = read_u64(b, 5);
        Ok(
            EventQueueHeader {
                account_flags,
                head: read_u64(b, 13),
                count: read_u64(b, 21),
                seq_num: read_u64(b, 29),
            },
        )
    }
}

proof fn lemma_event_bytes(buf: Seq<u8>, body: Seq<u8>, slots: Seq<[u8; 88]>, i: int)
    requires
        buf.len() >= EVENT_QUEUE_HEADER_LEN + TAIL_TAG_LEN,
        slots.len() == queue_capacity(buf.len()),
        body == buf.subrange(
            EVENT_QUEUE_HEADER_LEN as int,
            EVENT_QUEUE_HEADER_LEN + slots.len() * EVENT_LEN,
        ),
        forall|i: int, j: int|
            0 <= i < slots.len() && 0 <= j < 88 ==> #[trigger] slots[i]@[j] == body[i * 88 + j],
        0 <= i < slots.len(),
    ensures
        slots[i]@ == event_bytes(buf, i),
{
    let a = slots[i]@;
    let b = event_bytes(buf, i);
    assert(a.len() == 88);
    assert forall|j: int| 0 <= j < 88 implies a[j] == b[j] by {
        assert(slots[i]@[j] == body[i * 88 + j]);
    }
    assert(a =~= b);
}

impl Event {
    /// Decodes one event slot.
    pub fn read(slot: &[u8; 88]) -> (r: Event)
        ensures
            r == event_at(slot@),
    {
        let b: &[u8] = slot.as_slice();
        Event {
            event_flags: b[0],
            owner_slot: b[1],
            fee_tier: b[2],
            native_qty_released: read_u64(b, 8),
            native_qty_paid: read_u64(b, 16),
            native_fee_or_rebate: read_u64(b, 24),
            order_id: read_u128(b, 32),
            control: Pubkey::read(b, 48),
            client_order_id: read_u64(b, 80),
        }
    }

    /// Decodes an event queue into its header and all its slots, live or
    /// not, in the order of the slots.
    pub fn split(buf: &[u8]) -> (r: Result<(EventQueueHeader, Vec<Event>), FormatError>)
        ensures
            match queue_error(buf@) {
                Some(e) => r == Err::<(EventQueueHeader, Vec<Event>), FormatError>(e),
                None => {
                    &&& r is Ok
                    &&& r->Ok_0.0 == header_at(buf@)
                    &&& r->Ok_0.1@ == queue_events(buf@)
                },
            },
    {
        if buf.len() < EVENT_QUEUE_HEADER_LEN + TAIL_TAG_LEN {
            return Err(FormatError::SizeMismatch);
        }
        let (head, body) = buf.split_at(EVENT_QUEUE_HEADER_LEN);
        if !ends_with_tail_tag(buf) {
            return Err(FormatError::BadMagic);
        }
        proof {
            assert(head@.subrange(0, 5) =~= buf@.subrange(0, 5));
            assert(forall|k: int| 0 <= k < 37 ==> head@[k] == buf@[k]);
        }
        let header = match EventQueueHeader::deserialize(head) {
            Ok(header) => header,
            Err(e) => {
                return Err(e);
            },
        };
        let room: usize = body.len() - TAIL_TAG_LEN;
        let whole: usize = room - room % EVENT_LEN;
        let body: &[u8] = slice_subrange(body, 0, whole);
        let slots: &[[u8; 88]] = match slots::<88>(body) {
            Ok(slots) => slots,
            Err(_) => {
                return Err(FormatError::SizeMismatch);
            },
        };
        assert(slots@.len() == queue_capacity(buf@.len())) by {
            assert(slots@.len() * 88 == whole);
        }
        assert(body@ =~= buf@.subrange(
            EVENT_QUEUE_HEADER_LEN as int,
            EVENT_QUEUE_HEADER_LEN + slots@.len() * EVENT_LEN,
        ));
        let mut events: Vec<Event> = Vec::new();
        let mut i: usize = 0;
        while i < slots.len()
            invariant
                i <= slots@.len(),
                buf@.len() >= EVENT_QUEUE_HEADER_LEN + TAIL_TAG_LEN,
                slots@.len() == queue_capacity(buf@.len()),
                body@ == buf@.subrange(
                    EVENT_QUEUE_HEADER_LEN as int,
                    EVENT_QUEUE_HEADER_LEN + slots@.len() * EVENT_LEN,
                ),
                forall|i: int, j: int|
                    0 <= i < slots@.len() && 0 <= j < 88 ==> #[trigger] slots@[i]@[j] == body@[i
                        * 88 + j],
                events@.len() == i,
                forall|k: int| 0 <= k < i ==> events@[k] == event_at(event_bytes(buf@, k)),
            decreases slots@.len() - i,
        {
            proof {
                lemma_event_bytes(buf@, body@, slots@, i as int);
            }
            events.push(Event::read(&slots[i]));
            i += 1;
        }
        assert(events@ =~= queue_events(buf@));
        Ok((header, events))
    }

    /// Decodes an event queue into its header and its live events, oldest
    /// first.
    pub fn deserialize_queue(buf: &[u8]) -> (r: Result<(EventQueueHeader, Vec<Event>), FormatError>)
        ensures
            match queue_error(buf@) {
                Some(e) => r == Err::<(EventQueueHeader, Vec<Event>), FormatError>(e),
                None => {
                    &&& r is Ok
                    &&& r->Ok_0.0 == header_at(buf@)
                    &&& r->Ok_0.1@ == live_window(header_at(buf@), queue_events(buf@))
                },
            },
    {
        let (header, events) = match Event::split(buf) {
            Ok(parts) => parts,
            Err(e) => {
                return Err(e);
            },
        };
        let live = live_events(&header, &events);
        Ok((header, live))
    }

    /// Decodes an event queue and replays what a reader at `last_seq_num`
    /// has missed. When that is more than the queue holds, the replay is
    /// one event short of the whole ring and `gap` is set.
    pub fn deserialize_since(buf: &[u8], last_seq_num: u64) -> (r: Result<Replay, FormatError>)
        ensures
            match queue_error(buf@) {
                Some(e) => r matches Err(err) && err == e,
                None => {
                    let header = header_at(buf@);
                    let events = queue_events(buf@);
                    &&& r is Ok
                    &&& r->Ok_0.events@ == replay(header, last_seq_num, events)
                    &&& r->Ok_0.seq_num == header.seq_num % SEQ_MOD
                    &&& r->Ok_0.gap == has_gap(header.seq_num, last_seq_num, events.len() as int)
                },
            },
    {
        let (header, events) = match Event::split(buf) {
            Ok(parts) => parts,
            Err(e) => {
                return Err(e);
            },
        };
        Ok(events_since(&header, &events, last_seq_num))
    }

    /// Whether the event reports a fill.
    pub fn is_fill(&self) -> (r: bool)
        ensures
            r == EventFlag::Fill.is_set_in(self.event_flags),
    {
        self.event_flags & 0x1 != 0
    }

    /// Whether the event belongs to a bid.
    pub fn is_bid(&self) -> (r: bool)
        ensures
            r == EventFlag::Bid.is_set_in(self.event_flags),
    {
        self.event_flags & 0x4 != 0
    }

    /// Whether the event belongs to the maker of a trade.
    pub fn is_maker(&self) -> (r: bool)
        ensures
            r == EventFlag::Maker.is_set_in(self.event_flags),
    {
        self.event_flags & 0x8 != 0
    }
}

/// `a + b` reduced modulo `m`.
fn ring_add(a: u64, b: u64, m: u64) -> (r: u64)
    requires
        m > 0,
    ensures
        r == (a + b) % (m as int),
        r < m,
{
    ((a as u128 + b as u128) % (m as u128)) as u64
}

/// `a - b` reduced modulo `m`, which is never negative.
fn ring_sub(a: u64, b: u64, m: u64) -> (r: u64)
    requires
        m > 0,
    ensures
        r == (a - b) % (m as int),
        r < m,
{
    let x: u64 = a % m;
    let y: u64 = b % m;
    proof {
        lemma_sub_mod_noop(a as int, b as int, m as int);
        if x >= y {
            lemma_small_mod((x - y) as nat, m as nat);
        } else {
            lemma_mod_add_multiples_vanish(x - y, m as int);
            lemma_small_mod((x - y + m) as nat, m as nat);
        }
    }
    if x >= y {
        x - y
    } else {
        x + (m - y)
    }
}

/// The live events among the slots of a queue, oldest first.
pub fn live_events(header: &EventQueueHeader, events: &Vec<Event>) -> (r: Vec<Event>)
    ensures
        r@ == live_window(*header, events@),
{
    let cap: u64 = events.len() as u64;
    let n: u64 = if header.count <= cap {
        header.count
    } else {
        cap
    };
    let mut live: Vec<Event> = Vec::new();
    let mut i: u64 = 0;
    while i < n
        invariant
            i <= n <= cap,
            cap == events@.len(),
            cap <= usize::MAX,
            live@.len() == i,
            forall|k: int| 0 <= k < i ==> live@[k] == events@[(header.head + k) % (cap as int)],
        decreases n - i,
    {
        let j: u64 = ring_add(header.head, i, cap);
        live.push(events[j as usize]);
        i += 1;
    }
    assert(live@ =~= live_window(*header, events@));
    live
}

/// The replay of the slots of a queue for a reader at `last_seq_num`.
pub fn events_since(header: &EventQueueHeader, events: &Vec<Event>, last_seq_num: u64) -> (r: Replay)
    ensures
        r.events@ == replay(*header, last_seq_num, events@),
        r.seq_num == header.seq_num % SEQ_MOD,
        r.gap == has_gap(header.seq_num, last_seq_num, events@.len() as int),
{
    let cap: u64 = events.len() as u64;
    let missed: u64 = ring_sub(header.seq_num, last_seq_num, SEQ_MOD);
    let gap: bool = missed > cap;
    let n: u64 = if !gap {
        missed
    } else if cap > 0 {
        cap - 1
    } else {
        0
    };
    let mut out: Vec<(u64, Event)> = Vec::new();
    if n > 0 {
        let start_seq: u64 = ring_sub(header.seq_num, n, SEQ_MOD);
        let end: u64 = ring_add(header.head, header.count, cap);
        let start: u64 = ring_sub(end, n, cap);
        let mut i: u64 = 0;
        while i < n
            invariant
                i <= n <= cap,
                cap == events@.len(),
                cap <= usize::MAX,
                out@.len() == i,
                forall|k: int|
                    0 <= k < i ==> out@[k] == (
                        ((start_seq + k) % (SEQ_MOD as int)) as u64,
                        events@[(start + k) % (cap as int)],
                    ),
            decreases n - i,
        {
            let s: u64 = ring_add(start_seq, i, SEQ_MOD);
            let j: u64 = ring_add(start, i, cap);
            out.push((s, events[j as usize]));
            i += 1;
        }
    }
    assert(out@ =~= replay(*header, last_seq_num, events@));
    Replay { events: out, seq_num: header.seq_num % SEQ_MOD, gap }
}

} // verus!

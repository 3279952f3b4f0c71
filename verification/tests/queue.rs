use zo_abi::dex::queue::{events_since, live_events};
use zo_abi::dex::{Event, EventQueueHeader, FormatError, Replay};
use zo_abi::Pubkey;

const QUEUE_FLAGS: u64 = 0x11;

fn event_slot(index: u8) -> [u8; 88] {
    let mut slot = [0u8; 88];
    slot[0] = 0x1 | 0x8;
    slot[1] = index;
    slot[2] = 2;
    slot[3..8].copy_from_slice(&[0xffu8; 5]);
    slot[8..16].copy_from_slice(&(1_000 + index as u64).to_le_bytes());
    slot[16..24].copy_from_slice(&(2_000 + index as u64).to_le_bytes());
    slot[24..32].copy_from_slice(&(3_000 + index as u64).to_le_bytes());
    slot[32..48].copy_from_slice(&(((index as u128) << 64) | 5).to_le_bytes());
    for i in 0..32 {
        slot[48 + i] = index ^ (i as u8);
    }
    slot[80..88].copy_from_slice(&(4_000 + index as u64).to_le_bytes());
    slot
}

fn queue_buffer(flags: u64, head: u64, count: u64, seq_num: u64, slots: usize, slop: usize) -> Vec<u8> {
    let mut buf = Vec::new();
    buf.extend_from_slice(b"serum");
    buf.extend_from_slice(&flags.to_le_bytes());
    buf.extend_from_slice(&head.to_le_bytes());
    buf.extend_from_slice(&count.to_le_bytes());
    buf.extend_from_slice(&seq_num.to_le_bytes());
    assert_eq!(buf.len(), 37);
    for i in 0..slots {
        buf.extend_from_slice(&event_slot(i as u8));
    }
    buf.extend_from_slice(&vec![0x5au8; slop]);
    buf.extend_from_slice(b"padding");
    buf
}

fn slots_of(events: &[Event]) -> Vec<u8> {
    events.iter().map(|e| e.owner_slot).collect()
}

fn replay_slots(replay: &Replay) -> Vec<(u64, u8)> {
    replay.events.iter().map(|(seq, e)| (*seq, e.owner_slot)).collect()
}

#[test]
fn queue_header_decodes() {
    let buf = queue_buffer(QUEUE_FLAGS, 3, 4, 0x1_0000_0007, 8, 0);
    assert_eq!(
        EventQueueHeader::deserialize(&buf[..37]),
        Ok(EventQueueHeader { account_flags: 0x11, head: 3, count: 4, seq_num: 0x1_0000_0007 })
    );
}

#[test]
fn queue_header_rejects_malformed() {
    let buf = queue_buffer(QUEUE_FLAGS, 3, 4, 7, 8, 0);
    assert_eq!(EventQueueHeader::deserialize(&buf[..36]), Err(FormatError::SizeMismatch));
    assert_eq!(EventQueueHeader::deserialize(&buf[..38]), Err(FormatError::SizeMismatch));
    let mut bad = buf[..37].to_vec();
    bad[4] = b'n';
    assert_eq!(EventQueueHeader::deserialize(&bad), Err(FormatError::BadMagic));
    for flags in [0u64, 0x1, 0x10, 0x13, 0x211, 0x8000_0000_0000_0011] {
        let buf = queue_buffer(flags, 3, 4, 7, 8, 0);
        assert_eq!(EventQueueHeader::deserialize(&buf[..37]), Err(FormatError::BadFlags));
    }
}

#[test]
fn queue_split_decodes_every_slot() {
    let buf = queue_buffer(QUEUE_FLAGS, 1, 2, 9, 3, 0);
    let (header, events) = Event::split(&buf).unwrap();
    assert_eq!(header, EventQueueHeader { account_flags: 0x11, head: 1, count: 2, seq_num: 9 });
    assert_eq!(events.len(), 3);
    let mut control = [0u8; 32];
    for i in 0..32 {
        control[i] = 2 ^ (i as u8);
    }
    assert_eq!(
        events[2],
        Event {
            event_flags: 0x9,
            owner_slot: 2,
            fee_tier: 2,
            native_qty_released: 1_002,
            native_qty_paid: 2_002,
            native_fee_or_rebate: 3_002,
            order_id: (2u128 << 64) | 5,
            control: Pubkey::new_from_array(control),
            client_order_id: 4_002,
        }
    );
    assert_eq!(slots_of(&events), vec![0, 1, 2]);
}

#[test]
fn queue_drops_slop_after_the_last_whole_slot() {
    for slop in [0usize, 1, 40, 87] {
        let buf = queue_buffer(QUEUE_FLAGS, 0, 0, 0, 5, slop);
        let (_, events) = Event::split(&buf).unwrap();
        assert_eq!(slots_of(&events), vec![0, 1, 2, 3, 4]);
    }
    let buf = queue_buffer(QUEUE_FLAGS, 0, 0, 0, 0, 0);
    assert_eq!(buf.len(), 44);
    let (_, events) = Event::split(&buf).unwrap();
    assert!(events.is_empty());
}

#[test]
fn queue_rejects_malformed() {
    let good = queue_buffer(QUEUE_FLAGS, 3, 4, 7, 8, 0);
    assert_eq!(Event::split(&good[..43]).err(), Some(FormatError::SizeMismatch));
    assert_eq!(Event::split(&[]).err(), Some(FormatError::SizeMismatch));
    assert_eq!(Event::split(&good[..good.len() - 1]).err(), Some(FormatError::BadMagic));
    let mut bad = good.clone();
    bad[2] = 0;
    assert_eq!(Event::split(&bad).err(), Some(FormatError::BadMagic));
    assert_eq!(Event::deserialize_queue(&bad).err(), Some(FormatError::BadMagic));
    assert_eq!(Event::deserialize_since(&bad, 0).err(), Some(FormatError::BadMagic));
    let bad = queue_buffer(0x31, 3, 4, 7, 8, 0);
    assert_eq!(Event::split(&bad).err(), Some(FormatError::BadFlags));
    assert_eq!(Event::deserialize_queue(&bad).err(), Some(FormatError::BadFlags));
    assert_eq!(Event::deserialize_since(&bad, 0).err(), Some(FormatError::BadFlags));
}

#[test]
fn queue_live_window_in_one_run() {
    let buf = queue_buffer(QUEUE_FLAGS, 3, 4, 7, 8, 0);
    let (header, live) = Event::deserialize_queue(&buf).unwrap();
    assert_eq!(header.head, 3);
    assert_eq!(slots_of(&live), vec![3, 4, 5, 6]);
}

#[test]
fn queue_live_window_wraps() {
    let buf = queue_buffer(QUEUE_FLAGS, 6, 4, 7, 8, 0);
    let (_, live) = Event::deserialize_queue(&buf).unwrap();
    assert_eq!(slots_of(&live), vec![6, 7, 0, 1]);
}

#[test]
fn queue_live_window_edges() {
    let (_, live) = Event::deserialize_queue(&queue_buffer(QUEUE_FLAGS, 5, 0, 7, 8, 0)).unwrap();
    assert!(live.is_empty());
    let (_, live) = Event::deserialize_queue(&queue_buffer(QUEUE_FLAGS, 5, 8, 7, 8, 0)).unwrap();
    assert_eq!(slots_of(&live), vec![5, 6, 7, 0, 1, 2, 3, 4]);
    let (_, live) = Event::deserialize_queue(&queue_buffer(QUEUE_FLAGS, 2, 99, 7, 8, 0)).unwrap();
    assert_eq!(slots_of(&live), vec![2, 3, 4, 5, 6, 7, 0, 1]);
    let (_, live) = Event::deserialize_queue(&queue_buffer(QUEUE_FLAGS, 2, 3, 7, 0, 0)).unwrap();
    assert!(live.is_empty());
}

#[test]
fn queue_since_replays_what_was_missed() {
    let buf = queue_buffer(QUEUE_FLAGS, 3, 4, 100, 8, 0);
    let replay = Event::deserialize_since(&buf, 97).unwrap();
    assert_eq!(replay_slots(&replay), vec![(97, 4), (98, 5), (99, 6)]);
    assert_eq!(replay.seq_num, 100);
    assert!(!replay.gap);
    let replay = Event::deserialize_since(&buf, 100).unwrap();
    assert!(replay.events.is_empty());
    assert_eq!(replay.seq_num, 100);
    assert!(!replay.gap);
}

#[test]
fn queue_since_wraps_slots() {
    let buf = queue_buffer(QUEUE_FLAGS, 6, 4, 50, 8, 0);
    let replay = Event::deserialize_since(&buf, 45).unwrap();
    assert_eq!(replay_slots(&replay), vec![(45, 5), (46, 6), (47, 7), (48, 0), (49, 1)]);
    assert!(!replay.gap);
}

#[test]
fn queue_since_wraps_sequence_numbers() {
    let buf = queue_buffer(QUEUE_FLAGS, 0, 16, 5, 16, 0);
    let replay = Event::deserialize_since(&buf, 4294967290).unwrap();
    assert_eq!(replay.events.len(), 11);
    assert!(!replay.gap);
    assert_eq!(replay.seq_num, 5);
    let seqs: Vec<u64> = replay.events.iter().map(|(s, _)| *s).collect();
    assert_eq!(
        seqs,
        vec![4294967290, 4294967291, 4294967292, 4294967293, 4294967294, 4294967295, 0, 1, 2, 3, 4]
    );
    assert_eq!(
        replay.events.iter().map(|(_, e)| e.owner_slot).collect::<Vec<u8>>(),
        vec![5, 6, 7, 8, 9, 10, 11, 12, 13, 14, 15]
    );
}

#[test]
fn queue_since_reduces_stored_number() {
    let buf = queue_buffer(QUEUE_FLAGS, 0, 4, 0x3_0000_0002, 8, 0);
    let replay = Event::deserialize_since(&buf, 0x7_0000_0000).unwrap();
    assert_eq!(replay_slots(&replay), vec![(0, 2), (1, 3)]);
    assert_eq!(replay.seq_num, 2);
    assert!(!replay.gap);
}

#[test]
fn queue_since_clamps_to_one_less_than_the_ring() {
    let buf = queue_buffer(QUEUE_FLAGS, 3, 4, 100, 8, 0);
    let replay = Event::deserialize_since(&buf, 91).unwrap();
    assert!(replay.gap);
    assert_eq!(replay.seq_num, 100);
    assert_eq!(
        replay_slots(&replay),
        vec![(93, 0), (94, 1), (95, 2), (96, 3), (97, 4), (98, 5), (99, 6)]
    );
    let replay = Event::deserialize_since(&buf, 92).unwrap();
    assert!(!replay.gap);
    assert_eq!(replay.events.len(), 8);
    assert_eq!(replay.events[0].0, 92);
    assert_eq!(replay.events[0].1.owner_slot, 7);
    let replay = Event::deserialize_since(&buf, 101).unwrap();
    assert!(replay.gap);
    assert_eq!(replay.events.len(), 7);
    assert_eq!(replay.seq_num, 100);
}

#[test]
fn queue_since_on_a_ring_without_slots() {
    let buf = queue_buffer(QUEUE_FLAGS, 0, 0, 10, 0, 0);
    let replay = Event::deserialize_since(&buf, 7).unwrap();
    assert!(replay.gap);
    assert!(replay.events.is_empty());
    assert_eq!(replay.seq_num, 10);
    let replay = Event::deserialize_since(&buf, 10).unwrap();
    assert!(!replay.gap);
    assert!(replay.events.is_empty());
}

#[test]
fn queue_helpers_agree_with_the_decoders() {
    let buf = queue_buffer(QUEUE_FLAGS, 6, 4, 50, 8, 0);
    let (header, events) = Event::split(&buf).unwrap();
    assert_eq!(live_events(&header, &events), Event::deserialize_queue(&buf).unwrap().1);
    let a = events_since(&header, &events, 45);
    let b = Event::deserialize_since(&buf, 45).unwrap();
    assert_eq!(a.events, b.events);
    assert_eq!(a.seq_num, b.seq_num);
    assert_eq!(a.gap, b.gap);
}

#[test]
fn event_predicates_test_single_bits() {
    let mut event = Event::read(&event_slot(0));
    for flags in 0..=255u8 {
        event.event_flags = flags;
        assert_eq!(event.is_fill(), flags & 0x1 != 0);
        assert_eq!(event.is_bid(), flags & 0x4 != 0);
        assert_eq!(event.is_maker(), flags & 0x8 != 0);
    }
}

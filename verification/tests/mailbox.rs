use mavlink::common::{
    MavMessage, COMMAND_INT_DATA, MISSION_CLEAR_ALL_DATA, MISSION_COUNT_DATA, MISSION_REQUEST_DATA,
};
use mavlink_extras::mailbox::{Inserted, Lookup, MailboxInner, Permit, MAILBOX_MAX_SIZE};
use mavlink_extras::message::{MavFrame, MavHeader, MavlinkVersion, Message};

fn frame(msg: MavMessage, sequence: u8) -> MavFrame<MavMessage> {
    MavFrame {
        header: MavHeader { system_id: 1, component_id: 1, sequence },
        msg,
        protocol_version: MavlinkVersion::V2,
    }
}

fn clear_all(sequence: u8) -> MavFrame<MavMessage> {
    frame(MavMessage::MISSION_CLEAR_ALL(MISSION_CLEAR_ALL_DATA::default()), sequence)
}

fn count(sequence: u8) -> MavFrame<MavMessage> {
    frame(MavMessage::MISSION_COUNT(MISSION_COUNT_DATA::default()), sequence)
}

fn request(sequence: u8) -> MavFrame<MavMessage> {
    frame(MavMessage::MISSION_REQUEST(MISSION_REQUEST_DATA::default()), sequence)
}

fn add(mailbox: &mut MailboxInner<MavMessage>, frame: MavFrame<MavMessage>) {
    assert!(matches!(mailbox.insert_now(frame), Inserted::Added));
}

fn take(mailbox: &mut MailboxInner<MavMessage>) -> Option<u8> {
    if mailbox.is_empty() {
        return None;
    }
    mailbox.next(Permit::Acquired).map(|frame| frame.header.sequence)
}

fn take_id(mailbox: &mut MailboxInner<MavMessage>, id: u32) -> Option<u8> {
    match mailbox.next_with_id(id, Permit::Acquired) {
        Lookup::Found(frame) => {
            assert_eq!(frame.msg.message_id(), id);
            Some(frame.header.sequence)
        }
        Lookup::WaitAgain => None,
        Lookup::Closed => panic!("the mailbox is open"),
    }
}

#[test]
fn frames_come_in_order_of_arrival() {
    let mut mailbox = MailboxInner::new();
    assert!(mailbox.is_empty());
    add(&mut mailbox, clear_all(1));
    add(&mut mailbox, count(2));
    add(&mut mailbox, clear_all(3));
    add(&mut mailbox, request(4));
    add(&mut mailbox, count(5));
    assert!(!mailbox.is_empty());
    for sequence in 1..6 {
        assert_eq!(take(&mut mailbox), Some(sequence));
    }
    assert!(mailbox.is_empty());
}

#[test]
fn frames_of_an_id_come_in_order_of_arrival() {
    let mut mailbox = MailboxInner::new();
    add(&mut mailbox, clear_all(1));
    add(&mut mailbox, count(2));
    add(&mut mailbox, clear_all(3));
    add(&mut mailbox, count(4));
    assert_eq!(take_id(&mut mailbox, 44), Some(2));
    assert_eq!(take_id(&mut mailbox, 40), None);
    assert_eq!(take_id(&mut mailbox, 44), Some(4));
    assert_eq!(take_id(&mut mailbox, 44), None);
    assert_eq!(take(&mut mailbox), Some(1));
    assert_eq!(take(&mut mailbox), Some(3));
    assert_eq!(take(&mut mailbox), None);
}

#[test]
fn frame_in_the_middle_can_be_taken() {
    let mut mailbox = MailboxInner::new();
    add(&mut mailbox, clear_all(1));
    add(&mut mailbox, count(2));
    add(&mut mailbox, request(3));
    assert_eq!(take_id(&mut mailbox, 44), Some(2));
    add(&mut mailbox, count(4));
    assert_eq!(take_id(&mut mailbox, 44), Some(4));
    add(&mut mailbox, count(5));
    assert_eq!(take(&mut mailbox), Some(1));
    assert_eq!(take(&mut mailbox), Some(3));
    assert_eq!(take(&mut mailbox), Some(5));
    assert_eq!(take(&mut mailbox), None);
}

#[test]
fn oldest_frame_of_an_id_makes_room() {
    let mut mailbox = MailboxInner::new();
    add(&mut mailbox, count(100));
    for sequence in 0..16 {
        add(&mut mailbox, clear_all(sequence));
    }
    assert_eq!(MAILBOX_MAX_SIZE, 16);
    add(&mut mailbox, count(101));
    match mailbox.insert_now(clear_all(16)) {
        Inserted::Replaced(evicted) => assert_eq!(evicted.header.sequence, 0),
        _ => panic!("there is no space"),
    }
    match mailbox.insert_now(clear_all(17)) {
        Inserted::Replaced(evicted) => assert_eq!(evicted.header.sequence, 1),
        _ => panic!("there is no space"),
    }
    assert_eq!(take(&mut mailbox), Some(100));
    for sequence in 2..16 {
        assert_eq!(take(&mut mailbox), Some(sequence));
    }
    assert_eq!(take(&mut mailbox), Some(101));
    assert_eq!(take(&mut mailbox), Some(16));
    assert_eq!(take(&mut mailbox), Some(17));
    assert_eq!(take(&mut mailbox), None);
}

#[test]
fn most_recent_frames_of_each_id_are_kept() {
    let mut mailbox = MailboxInner::new();
    for sequence in 0..100 {
        mailbox.insert_now(clear_all(sequence));
        mailbox.insert_now(count(sequence));
    }
    for sequence in 84..100 {
        assert_eq!(take_id(&mut mailbox, 44), Some(sequence));
    }
    assert_eq!(take_id(&mut mailbox, 44), None);
    for sequence in 84..100 {
        assert_eq!(take(&mut mailbox), Some(sequence));
    }
    assert!(mailbox.is_empty());
}

#[test]
fn arrivals_of_one_moment_are_told_apart() {
    let mut mailbox = MailboxInner::new();
    assert!(mailbox.insert_at(clear_all(1), 5).is_none());
    assert!(mailbox.insert_at(count(2), 5).is_none());
    assert!(mailbox.insert_at(request(3), 4).is_none());
    assert!(mailbox.insert_at(clear_all(4), 6).is_none());
    assert_eq!(take(&mut mailbox), Some(1));
    assert_eq!(take_id(&mut mailbox, 45), Some(4));
    assert_eq!(take(&mut mailbox), Some(2));
    assert_eq!(take(&mut mailbox), Some(3));
}

#[test]
fn arrival_after_the_last_moment_is_refused() {
    let mut mailbox = MailboxInner::new();
    assert!(mailbox.insert_at(clear_all(1), u128::MAX).is_none());
    match mailbox.insert_now(clear_all(2)) {
        Inserted::Refused(frame) => assert_eq!(frame.header.sequence, 2),
        _ => panic!("there is no later moment"),
    }
    add(&mut mailbox, count(3));
    assert_eq!(take(&mut mailbox), Some(1));
    add(&mut mailbox, clear_all(4));
    assert_eq!(take(&mut mailbox), Some(3));
    assert_eq!(take(&mut mailbox), Some(4));
}

#[test]
fn later_reading_of_the_clock_is_not_needed() {
    let mut mailbox = MailboxInner::new();
    assert!(mailbox.insert_at(clear_all(1), u128::MAX - 2).is_none());
    add(&mut mailbox, clear_all(2));
    add(&mut mailbox, clear_all(3));
    assert!(matches!(mailbox.insert_now(clear_all(4)), Inserted::Refused(_)));
    assert_eq!(take(&mut mailbox), Some(1));
    assert_eq!(take(&mut mailbox), Some(2));
    assert_eq!(take(&mut mailbox), Some(3));
}

#[test]
fn closed_mailbox_gives_nothing() {
    let mut mailbox = MailboxInner::new();
    add(&mut mailbox, clear_all(1));
    assert!(mailbox.next(Permit::Closed).is_none());
    assert!(matches!(mailbox.next_with_id(45, Permit::Closed), Lookup::Closed));
    assert_eq!(take(&mut mailbox), Some(1));
}

#[test]
fn permits_are_as_many_as_frames() {
    let mut mailbox = MailboxInner::new();
    let mut permits = 0;
    for sequence in 0..40 {
        let msg = if sequence % 3 == 0 {
            count(sequence)
        } else {
            frame(MavMessage::COMMAND_INT(COMMAND_INT_DATA::default()), sequence)
        };
        match mailbox.insert_now(msg) {
            Inserted::Added => permits += 1,
            Inserted::Replaced(_) => {}
            Inserted::Refused(_) => panic!("there is a later moment"),
        }
    }
    assert_eq!(permits, 14 + 16);
    while permits > 0 {
        assert!(mailbox.next(Permit::Acquired).is_some());
        permits -= 1;
    }
    assert!(mailbox.is_empty());
}

#[test]
fn frames_of_one_reading_are_both_kept() {
    let mut mailbox = MailboxInner::new();
    assert!(matches!(mailbox.insert_reading(clear_all(1), 7), Inserted::Added));
    assert!(matches!(mailbox.insert_reading(clear_all(2), 7), Inserted::Added));
    assert!(matches!(mailbox.insert_reading(count(3), 7), Inserted::Added));
    assert!(matches!(mailbox.insert_reading(clear_all(4), 6), Inserted::Added));
    assert_eq!(take(&mut mailbox), Some(1));
    assert_eq!(take(&mut mailbox), Some(2));
    assert_eq!(take(&mut mailbox), Some(3));
    assert_eq!(take(&mut mailbox), Some(4));
    assert_eq!(take(&mut mailbox), None);
}

#[test]
fn room_is_made_at_one_reading() {
    let mut mailbox = MailboxInner::new();
    for sequence in 0..40 {
        match mailbox.insert_reading(clear_all(sequence), 0) {
            Inserted::Added => assert!(sequence < 16),
            Inserted::Replaced(evicted) => assert_eq!(evicted.header.sequence, sequence - 16),
            Inserted::Refused(_) => panic!("there is a later moment"),
        }
    }
    for sequence in 24..40 {
        assert_eq!(take_id(&mut mailbox, 45), Some(sequence));
    }
    assert!(mailbox.is_empty());
}

#[test]
fn reading_after_the_last_moment_is_refused() {
    let mut mailbox = MailboxInner::new();
    assert!(matches!(mailbox.insert_reading(clear_all(1), u128::MAX), Inserted::Added));
    match mailbox.insert_reading(clear_all(2), u128::MAX) {
        Inserted::Refused(frame) => assert_eq!(frame.header.sequence, 2),
        _ => panic!("there is no later moment"),
    }
    assert_eq!(take(&mut mailbox), Some(1));
    assert!(matches!(mailbox.insert_reading(clear_all(3), u128::MAX), Inserted::Added));
}

#[test]
fn frames_of_all_ids_are_in_order_of_arrival() {
    let mut mailbox = MailboxInner::new();
    for sequence in 0..100 {
        match sequence % 3 {
            0 => mailbox.insert_reading(clear_all(sequence), 1),
            1 => mailbox.insert_reading(count(sequence), 2),
            _ => mailbox.insert_now(request(sequence)),
        };
    }
    let mut last = None;
    let mut taken = 0;
    while let Some(sequence) = take(&mut mailbox) {
        assert!(last < Some(sequence));
        last = Some(sequence);
        taken += 1;
    }
    assert_eq!(taken, 48);
    assert_eq!(last, Some(99));
}

use modat::concat::{concat_part_of, ConcatBuffer};
use modat::inbox::{classify_incoming, Incoming, InboxMessage};

const PART1: &str = "07912618010000F0440B912618325476F80000521091214305800D0500032A0201906536FB0D02";
const PART2: &str = "07912618010000F0440B912618325476F80000521091214305800C0500032A0202AE6F399B0C";

fn entry(pdu: &str) -> InboxMessage {
    match classify_incoming(pdu) {
        Incoming::Message(m) => m,
        _ => panic!("expected a message"),
    }
}

#[test]
fn parts_are_read() {
    let p = concat_part_of(PART1).expect("part");
    assert_eq!(p.reference, 0x2A);
    assert_eq!(p.total, 2);
    assert_eq!(p.seq, 1);
    assert_eq!(p.text, "Hello ");
    let q = concat_part_of(PART2).expect("part");
    assert_eq!(q.seq, 2);
    assert_eq!(q.text, "World");
    assert!(concat_part_of("0791261801000000040B912618325476F800005210912143058005C8329BFD06").is_none());
}

#[test]
fn parts_in_any_order_give_one_message() {
    let mut buf = ConcatBuffer::new();
    let second = concat_part_of(PART2).unwrap();
    assert!(buf.add_part("+62812345678", second, entry(PART2)).is_none());
    assert_eq!(buf.pending.len(), 1);
    let first = concat_part_of(PART1).unwrap();
    let done = buf.add_part("+62812345678", first, entry(PART1)).expect("complete");
    assert_eq!(done.pre_decoded.as_deref(), Some("Hello World"));
    assert_eq!(done.pdu, PART2);
    assert!(buf.pending.is_empty());
}

#[test]
fn part_without_valid_number_stands_alone() {
    let mut buf = ConcatBuffer::new();
    let mut p = concat_part_of(PART1).unwrap();
    p.seq = 3;
    let m = buf.add_part("x", p, entry(PART1)).expect("alone");
    assert_eq!(m.pdu, PART1);
    assert!(buf.pending.is_empty());
}

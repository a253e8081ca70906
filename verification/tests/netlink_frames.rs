use netlink_packet_core::{NetlinkHeader, NetlinkMessage, NetlinkPayload};
use netlink_packet_route::{LinkMessage, RtnlMessage};
use rusty_router::common::Error;
use rusty_router::platform::netlink::socket::receive_frames;

fn frame(sequence_number: u32, payload: NetlinkPayload<RtnlMessage>) -> Vec<u8> {
    let mut header = NetlinkHeader::default();
    header.sequence_number = sequence_number;
    let mut message = NetlinkMessage::new(header, payload);
    message.finalize();
    let mut buffer = vec![0u8; message.buffer_len()];
    message.serialize(&mut buffer[..]);
    buffer
}

fn link_frame(sequence_number: u32, index: u32) -> Vec<u8> {
    let mut link = LinkMessage::default();
    link.header.index = index;
    frame(sequence_number, NetlinkPayload::InnerMessage(RtnlMessage::NewLink(link)))
}

fn index_at(buffer: &[u8], offset: usize) -> u32 {
    match NetlinkMessage::<RtnlMessage>::deserialize(&buffer[offset..]).unwrap().payload {
        NetlinkPayload::InnerMessage(RtnlMessage::NewLink(link)) => link.header.index,
        _ => panic!("not a link"),
    }
}

#[test]
fn frames_until_done() {
    let a = link_frame(7, 1);
    let b = link_frame(8, 2);
    let c = link_frame(7, 3);
    let mut buffer = a.clone();
    buffer.extend(b.clone());
    buffer.extend(c.clone());
    buffer.extend(frame(7, NetlinkPayload::Done));
    buffer.extend(link_frame(7, 4));
    let (outcome, kept) = receive_frames(Some(7), &buffer[..]);
    assert!(matches!(outcome, Ok(true)));
    assert_eq!(kept, vec![(0, a.len()), (a.len() + b.len(), c.len())]);
    assert_eq!(index_at(&buffer, kept[0].0), 1);
    assert_eq!(index_at(&buffer, kept[1].0), 3);
}

#[test]
fn frames_without_done() {
    let a = link_frame(3, 5);
    let b = link_frame(4, 6);
    let mut buffer = a.clone();
    buffer.extend(b.clone());
    let (outcome, kept) = receive_frames(None, &buffer[..]);
    assert!(matches!(outcome, Ok(false)));
    assert_eq!(kept, vec![(0, a.len()), (a.len(), b.len())]);
    assert_eq!(index_at(&buffer, kept[1].0), 6);
}

#[test]
fn unreadable_frame() {
    let mut buffer = link_frame(1, 9);
    let first = buffer.len();
    buffer.extend([1, 2, 3]);
    let (outcome, kept) = receive_frames(None, &buffer[..]);
    match outcome {
        Err(Error::Communication(text)) => assert!(text.starts_with("Failed to deserialize netlink message: ")),
        Err(e) => panic!("unexpected {}", e.to_string()),
        Ok(done) => panic!("unexpected success {}", done),
    }
    assert_eq!(kept, vec![(0, first)]);
}

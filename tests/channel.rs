use pattern_audio::channel::{chunk_channel, SendOutcome};
use pattern_audio::chunk::Chunk;

fn chunk(v: [i16; 3]) -> Chunk<3> {
    Chunk::<3>::from_halved(v.to_vec()).unwrap()
}

#[test]
fn send_on_full_channel_drops_newest() {
    let (tx, rx) = chunk_channel::<3>(1);
    assert_eq!(tx.send(chunk([1, 2, 3])), SendOutcome::Sent);
    assert_eq!(tx.send(chunk([4, 5, 6])), SendOutcome::Full);
    let got = rx.try_receive().unwrap();
    assert_eq!(got.to_vec(), vec![1, 2, 3]);
    assert!(rx.try_receive().is_none());
}

#[test]
fn receive_on_empty_channel_is_none() {
    let (_tx, rx) = chunk_channel::<3>(2);
    assert!(rx.try_receive().is_none());
}

#[test]
fn chunks_arrive_in_order() {
    let (tx, rx) = chunk_channel::<3>(2);
    assert_eq!(tx.send(chunk([1, 1, 1])), SendOutcome::Sent);
    assert_eq!(tx.send(chunk([2, 2, 2])), SendOutcome::Sent);
    assert_eq!(tx.send(chunk([3, 3, 3])), SendOutcome::Full);
    assert_eq!(rx.try_receive().unwrap().to_vec(), vec![1, 1, 1]);
    assert_eq!(rx.try_receive().unwrap().to_vec(), vec![2, 2, 2]);
    assert!(rx.try_receive().is_none());
}

#[test]
fn send_after_receiver_dropped_is_disconnected() {
    let (tx, rx) = chunk_channel::<3>(1);
    drop(rx);
    assert_eq!(tx.send(chunk([1, 2, 3])), SendOutcome::Disconnected);
}

#[test]
fn emit_row_halves_before_sending() {
    let (tx, rx) = chunk_channel::<3>(1);
    assert_eq!(tx.emit_row(&[32767, -32768, -3]), SendOutcome::Sent);
    assert_eq!(rx.try_receive().unwrap().to_vec(), vec![16383, -16384, -1]);
}

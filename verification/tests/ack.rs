use std::collections::VecDeque;
use hyveos::ack::{AckReader, AckWriter, BUF_SIZE, HIGH_WATERMARK, STEP_SIZE};

#[test]
fn step_is_a_tenth_of_the_watermark() {
    assert_eq!(HIGH_WATERMARK, 1024 * 1024);
    assert_eq!(STEP_SIZE, 104857);
    assert_eq!(BUF_SIZE, 104857);
}

#[test]
fn reader_acknowledges_each_full_step() {
    let mut r = AckReader::new();
    assert_eq!(r.on_read(STEP_SIZE - 1), None);
    assert_eq!(r.on_read(1), Some(STEP_SIZE));
    assert_eq!(r.on_read(10), None);
    assert_eq!(r.on_read(3 * STEP_SIZE), Some(4 * STEP_SIZE + 10));
    assert_eq!(r.finish(), 4 * STEP_SIZE + 10);
}

#[test]
fn writer_waits_at_the_watermark_until_two_steps_remain() {
    let mut w = AckWriter::new();
    assert!(!w.must_wait());
    w.on_sent(HIGH_WATERMARK - 1);
    assert!(!w.must_wait());
    w.on_sent(1);
    assert!(w.must_wait());
    assert!(w.keep_waiting());
    w.on_ack(HIGH_WATERMARK - 2 * STEP_SIZE);
    assert!(!w.keep_waiting());
    assert!(w.keep_closing());
    w.on_ack(HIGH_WATERMARK - STEP_SIZE);
    assert!(!w.keep_closing());
    assert!(!w.must_wait());
}

#[test]
fn ack_protocol_delivers_everything_in_order() {
    // Sender data: 64 blocks of 100 KiB, each followed by its number as a u128.
    let mut source: VecDeque<u8> = VecDeque::new();
    for i in 0u128..64 {
        source.extend(std::iter::repeat(0u8).take(100 * 1024));
        source.extend(i.to_be_bytes());
    }
    let total = source.len() as u64;
    let capacity = (STEP_SIZE * 2) as usize;
    let mut pipe: VecDeque<u8> = VecDeque::new();
    let mut acks: VecDeque<u64> = VecDeque::new();
    let mut received: Vec<u8> = Vec::new();
    let mut w = AckWriter::new();
    let mut r = AckReader::new();
    let mut sent: u64 = 0;
    loop {
        // The sender waits at the watermark, reading acknowledgements.
        if w.must_wait() {
            while w.keep_waiting() {
                match acks.pop_front() {
                    Some(a) => w.on_ack(a),
                    None => break,
                }
            }
        }
        if !w.must_wait() && !source.is_empty() && pipe.len() < capacity {
            let n = std::cmp::min(BUF_SIZE, std::cmp::min(source.len(), capacity - pipe.len()));
            pipe.extend(source.drain(..n));
            w.on_sent(n as u64);
            sent += n as u64;
        }
        // The receiver reads what arrived and acknowledges each full step.
        if !pipe.is_empty() {
            let n = std::cmp::min(BUF_SIZE, pipe.len());
            received.extend(pipe.drain(..n));
            if let Some(a) = r.on_read(n as u64) {
                acks.push_back(a);
            }
        } else if source.is_empty() {
            break;
        }
    }
    acks.push_back(r.finish());
    while w.keep_closing() {
        let a = acks.pop_front().expect("an acknowledgement is owed");
        w.on_ack(a);
    }
    assert_eq!(sent, total);
    assert_eq!(received.len() as u64, total);
    let block = 100 * 1024 + 16;
    for i in 0u128..64 {
        let at = i as usize * block + 100 * 1024;
        let mut b = [0u8; 16];
        b.copy_from_slice(&received[at..at + 16]);
        assert_eq!(u128::from_be_bytes(b), i);
    }
}

use e_nguyen::ring::{RingBuffer, RingBytes};

#[test]
fn reserve_grants_at_least_request() {
    let (tx, _rx) = RingBytes::new(16);
    let granted = tx.reserve(1024);
    assert!(granted >= 1024);
}

#[test]
fn round_trip_in_order() {
    // writing a guaranteed amount and reading it back returns exactly those
    // bytes, first in, first out
    let (tx, rx) = RingBytes::new(64);
    let payload: Vec<u8> = (0..=255).collect();
    let granted = tx.reserve(payload.len());
    assert!(granted >= payload.len());
    tx.write(&payload);
    assert_eq!(rx.available(), 256);
    let first = rx.read(100);
    let rest = rx.read(156);
    assert_eq!(first, (0..=99).collect::<Vec<u8>>());
    assert_eq!(rest, (100..=255).collect::<Vec<u8>>());
    assert_eq!(rx.available(), 0);
}

#[test]
fn read_clamps_to_available() {
    let (tx, rx) = RingBytes::new(8);
    tx.reserve(4);
    tx.write(&[1, 2, 3, 4]);
    let all = rx.read(100);
    assert_eq!(all, vec![1, 2, 3, 4]);
}

#[test]
fn sequential_buffer_fifo() {
    let mut ring = RingBuffer::new(32);
    let granted = ring.reserve(8);
    assert!(granted >= 8);
    ring.write(&[10, 20, 30, 40]);
    assert_eq!(ring.available(), 4);
    let out = ring.read(3);
    assert_eq!(out, vec![10, 20, 30]);
    assert_eq!(ring.available(), 1);
    assert_eq!(ring.read(1), vec![40]);
}

#[test]
fn send_a_megabyte() {
    // the original sends a megabyte between two threads; the channel is
    // exercised here with the same volume and chunk size, interleaved
    // sequentially so corruption would be caught byte by byte
    let one_meg: usize = 1048576;
    let (tx, rx) = RingBytes::new(7777);
    let chunk: usize = 1024;

    let mut written: usize = 0;
    let mut received: usize = 0;
    let mut next_expected: u8 = 0;
    while received < one_meg {
        if written < one_meg {
            let data: Vec<u8> = (0..chunk).map(|i| ((written + i) % 251) as u8).collect();
            let avail = tx.reserve(chunk);
            assert!(avail >= chunk);
            tx.write(&data);
            written += chunk;
        }
        let avail = rx.available();
        let got = rx.read(avail);
        for b in got.iter() {
            assert_eq!(*b, next_expected);
            next_expected = (next_expected + 1) % 251;
        }
        received += got.len();
    }
    assert!(written >= one_meg);
    assert!(received >= one_meg);
    assert!(written == received);
}

use ak_os_kernel::kbuf::{
    fits_ring, HeapKernelBuffer, KernelBuffer, StaticKernelBuffer, LINE_LEN, RING_LINES,
};
use ak_os_kernel::task::mouse::{add_packet, PacketStream};
use ak_os_kernel::task::stream::{TaskStream, WriteOutcome, STREAM_CAPACITY};
use ak_os_kernel::task::{Poll, TaskId};

#[test]
fn bytes_come_out_in_the_order_they_went_in() {
    let mut stream = TaskStream::new();
    assert_eq!(stream.write(1), WriteOutcome::Queued { woken: None });
    assert_eq!(stream.write(2), WriteOutcome::Queued { woken: None });
    assert_eq!(stream.len(), 2);
    assert_eq!(stream.poll_next(TaskId(9)), Poll::Ready(Some(1)));
    assert_eq!(stream.poll_next(TaskId(9)), Poll::Ready(Some(2)));
    assert_eq!(stream.poll_next(TaskId(9)), Poll::Pending);
    assert_eq!(stream.len(), 0);
}

#[test]
fn a_write_wakes_the_waiting_reader_once() {
    let mut stream = TaskStream::new();
    assert_eq!(stream.poll_next(TaskId(4)), Poll::Pending);
    assert_eq!(stream.write(0x1e), WriteOutcome::Queued { woken: Some(TaskId(4)) });
    assert_eq!(stream.write(0x9e), WriteOutcome::Queued { woken: None });
    assert_eq!(stream.poll_next(TaskId(4)), Poll::Ready(Some(0x1e)));
}

#[test]
fn a_full_stream_drops_the_new_byte() {
    let mut stream = TaskStream::new();
    assert_eq!(stream.poll_next(TaskId(4)), Poll::Pending);
    for i in 0..STREAM_CAPACITY {
        assert!(matches!(stream.write(i as u8), WriteOutcome::Queued { .. }));
    }
    assert_eq!(stream.len(), 1024);
    assert_eq!(stream.write(0xff), WriteOutcome::Dropped);
    assert_eq!(stream.len(), 1024);
    assert_eq!(stream.poll_next(TaskId(4)), Poll::Ready(Some(0)));
    assert_eq!(stream.write(0xfe), WriteOutcome::Queued { woken: None });
}

#[test]
fn keyboard_and_mouse_feed_their_streams() {
    let mut keys = TaskStream::new();
    let mut packets: PacketStream = PacketStream::new();
    assert_eq!(packets.poll_next(TaskId(2)), Poll::Pending);
    assert_eq!(ak_os_kernel::task::keyboard::write(&mut keys, 0x1c), WriteOutcome::Queued { woken: None });
    assert_eq!(add_packet(&mut packets, 0x08), WriteOutcome::Queued { woken: Some(TaskId(2)) });
    assert_eq!(keys.poll_next(TaskId(1)), Poll::Ready(Some(0x1c)));
    assert_eq!(packets.poll_next(TaskId(2)), Poll::Ready(Some(0x08)));
}

#[test]
fn the_ring_keeps_the_newest_lines() {
    let mut ring = StaticKernelBuffer::new();
    assert!(ring.iter().is_empty());
    for i in 0..(RING_LINES + 2) {
        ring.write_str(&format!("line {}", i));
    }
    let lines = ring.iter();
    assert_eq!(lines.len(), 64);
    assert_eq!(lines[0], "line 2");
    assert_eq!(lines[63], "line 65");
    let long = "x".repeat(LINE_LEN);
    ring.write_str(&long);
    assert_eq!(ring.iter()[63], long);
}

#[test]
fn the_heap_buffer_queues_lines_for_its_reader() {
    let mut heap = HeapKernelBuffer::new();
    assert_eq!(heap.poll_next(TaskId(5)), Poll::Pending);
    assert_eq!(heap.write_str("first"), Some(TaskId(5)));
    assert_eq!(heap.write_str("second"), None);
    assert_eq!(heap.poll_next(TaskId(5)), Poll::Ready(Some(String::from("first"))));
    assert_eq!(heap.poll_next(TaskId(5)), Poll::Ready(Some(String::from("second"))));
    assert_eq!(heap.poll_next(TaskId(5)), Poll::Pending);
    assert!(heap.iter().is_empty());
}

#[test]
fn the_kernel_buffer_moves_to_the_heap_with_its_lines() {
    let mut kbuf = KernelBuffer::new();
    assert_eq!(kbuf.write_str("boot"), None);
    assert_eq!(kbuf.write_str("heap up"), None);
    assert_eq!(kbuf.iter(), vec![String::from("boot"), String::from("heap up")]);
    kbuf.use_heap();
    assert!(matches!(kbuf, KernelBuffer::Heap(_)));
    assert_eq!(kbuf.poll_next(TaskId(1)), Poll::Ready(Some(String::from("boot"))));
    assert_eq!(kbuf.poll_next(TaskId(1)), Poll::Ready(Some(String::from("heap up"))));
    assert_eq!(kbuf.poll_next(TaskId(1)), Poll::Pending);
    assert_eq!(kbuf.write_str("a line of any length, also one with an umlaut: ü"), Some(TaskId(1)));
    assert!(kbuf.iter().is_empty());
}

#[test]
fn the_ring_takes_any_text_of_up_to_its_length_in_bytes() {
    let mut ring = StaticKernelBuffer::new();
    let text = "Grüße, 世界";
    assert!(fits_ring(text));
    ring.write_str(text);
    assert_eq!(ring.iter(), vec![String::from(text)]);
    let full = "ü".repeat(LINE_LEN / 2);
    assert_eq!(full.len(), 96);
    assert!(fits_ring(&full));
    ring.write_str(&full);
    assert_eq!(ring.iter()[1], full);
    assert!(!fits_ring(&"ü".repeat(LINE_LEN / 2 + 1)));
    assert!(!fits_ring(&"x".repeat(LINE_LEN + 1)));
    let mut kbuf = KernelBuffer::new();
    assert_eq!(kbuf.write_str(text), None);
    assert_eq!(kbuf.iter(), vec![String::from(text)]);
}

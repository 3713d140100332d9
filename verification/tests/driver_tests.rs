use dma_uart::driver::DmaUart;

/// Usable bytes per reception cycle: ring capacity minus the reserved
/// DMA lookahead slot.
const USABLE: usize = 63;

/// Read window capacity.
const WINDOW: usize = 1024;

#[test]
fn fresh_driver_is_empty_and_running() {
    let d = DmaUart::new();
    assert_eq!(d.get_buffer(), &[] as &[u8]);
    assert!(!d.is_halted());
}

#[test]
fn scenario_a_single_delivery() {
    let mut d = DmaUart::new();
    assert!(d.deliver(0x41));
    assert!(d.deliver(0x42));
    assert!(d.deliver(0x43));
    d.complete_interrupt();
    d.poll();
    assert_eq!(d.get_buffer(), &[0x41, 0x42, 0x43]);
    assert!(!d.is_halted());
}

#[test]
fn scenario_b_consume_prefix() {
    let mut d = DmaUart::new();
    assert!(d.deliver(0x41));
    assert!(d.deliver(0x42));
    assert!(d.deliver(0x43));
    d.complete_interrupt();
    d.poll();
    d.consume(2);
    assert_eq!(d.get_buffer(), &[0x43]);
}

#[test]
fn scenario_c_two_cycles_concatenate_in_order() {
    let mut d = DmaUart::new();
    assert!(d.deliver(0x01));
    assert!(d.deliver(0x02));
    d.complete_interrupt();
    d.poll();
    // The buffer was re-armed by poll: a second delivery is accepted.
    assert!(d.deliver(0x03));
    d.complete_interrupt();
    d.poll();
    assert_eq!(d.get_buffer(), &[0x01, 0x02, 0x03]);
    assert!(!d.is_halted());
}

#[test]
fn scenario_d_arm_failure_halts_and_freezes() {
    let mut d = DmaUart::new();
    d.refuse_next_arm();
    assert!(d.deliver(0x10));
    assert!(d.deliver(0x11));
    d.complete_interrupt();
    d.poll();
    assert!(d.is_halted());
    // The drained bytes were staged before the re-arm failed.
    let before: Vec<u8> = d.get_buffer().to_vec();
    // After the halt no further state mutation is observable.
    assert!(!d.deliver(0x12));
    d.complete_interrupt();
    d.poll();
    d.consume(1);
    d.clear();
    assert_eq!(d.get_buffer(), before.as_slice());
    assert!(d.is_halted());
}

#[test]
fn scenario_e_clear_then_new_data() {
    let mut d = DmaUart::new();
    assert!(d.deliver(0x41));
    assert!(d.deliver(0x42));
    assert!(d.deliver(0x43));
    d.complete_interrupt();
    d.poll();
    d.consume(2);
    d.clear();
    assert_eq!(d.get_buffer(), &[] as &[u8]);
    // A later reception cycle still works.
    assert!(d.deliver(0x5A));
    d.complete_interrupt();
    d.poll();
    assert_eq!(d.get_buffer(), &[0x5A]);
    assert!(!d.is_halted());
}

#[test]
fn consume_zero_changes_nothing() {
    let mut d = DmaUart::new();
    assert!(d.deliver(0xAA));
    assert!(d.deliver(0xBB));
    d.complete_interrupt();
    d.poll();
    d.consume(0);
    assert_eq!(d.get_buffer(), &[0xAA, 0xBB]);
}

#[test]
fn consume_clamps_past_cursor() {
    let mut d = DmaUart::new();
    assert!(d.deliver(0x01));
    assert!(d.deliver(0x02));
    d.complete_interrupt();
    d.poll();
    // More than is available: exactly the available bytes go, cursor is 0.
    d.consume(100);
    assert_eq!(d.get_buffer(), &[] as &[u8]);
    // A second oversized consume is safe and leaves the window empty.
    d.consume(100);
    assert_eq!(d.get_buffer(), &[] as &[u8]);
    assert!(!d.is_halted());
}

#[test]
fn consume_twice_same_count_is_clamped() {
    let mut d = DmaUart::new();
    for b in [1u8, 2, 3, 4, 5] {
        assert!(d.deliver(b));
    }
    d.complete_interrupt();
    d.poll();
    d.consume(3);
    assert_eq!(d.get_buffer(), &[4, 5]);
    d.consume(3);
    assert_eq!(d.get_buffer(), &[] as &[u8]);
}

#[test]
fn ring_refuses_bytes_past_usable_capacity() {
    let mut d = DmaUart::new();
    for i in 0..USABLE {
        assert!(d.deliver(i as u8));
    }
    // Slot 64 is the reserved DMA lookahead: the byte is not accepted.
    assert!(!d.deliver(0xFF));
    d.complete_interrupt();
    d.poll();
    assert_eq!(d.get_buffer().len(), USABLE);
    assert_eq!(d.get_buffer()[0], 0);
    assert_eq!(d.get_buffer()[USABLE - 1], (USABLE - 1) as u8);
}

#[test]
fn poll_without_ready_is_a_no_op() {
    let mut d = DmaUart::new();
    d.poll();
    assert_eq!(d.get_buffer(), &[] as &[u8]);
    // Delivered but not yet completed: poll still finds nothing ready.
    assert!(d.deliver(0x77));
    d.poll();
    assert_eq!(d.get_buffer(), &[] as &[u8]);
    assert!(!d.is_halted());
}

#[test]
fn delivery_between_completion_and_poll_is_refused() {
    let mut d = DmaUart::new();
    assert!(d.deliver(0x01));
    d.complete_interrupt();
    // Nothing is armed while the buffer sits in the slot.
    assert!(!d.deliver(0x02));
    // A second completion signal with nothing in flight is another source
    // on the shared line and is ignored.
    d.complete_interrupt();
    d.poll();
    assert_eq!(d.get_buffer(), &[0x01]);
    assert!(!d.is_halted());
}

#[test]
fn window_overflow_halts() {
    let mut d = DmaUart::new();
    // 16 full cycles fit (16 * 63 = 1008 <= 1024); the 17th drain would
    // overflow the read window and must halt.
    for _ in 0..16 {
        for i in 0..USABLE {
            assert!(d.deliver(i as u8));
        }
        d.complete_interrupt();
        d.poll();
        assert!(!d.is_halted());
    }
    assert_eq!(d.get_buffer().len(), 16 * USABLE);
    assert!(16 * USABLE <= WINDOW);
    for i in 0..USABLE {
        assert!(d.deliver(i as u8));
    }
    d.complete_interrupt();
    d.poll();
    assert!(d.is_halted());
    // The window was left as it was before the fatal drain.
    assert_eq!(d.get_buffer().len(), 16 * USABLE);
}

#[test]
fn round_trip_over_many_cycles() {
    let mut d = DmaUart::new();
    let mut expected: Vec<u8> = Vec::new();
    let mut consumed: usize = 0;
    for cycle in 0..10u8 {
        let burst = (cycle as usize % 5) + 1;
        for j in 0..burst {
            let byte = cycle.wrapping_mul(16).wrapping_add(j as u8);
            assert!(d.deliver(byte));
            expected.push(byte);
        }
        d.complete_interrupt();
        d.poll();
        assert_eq!(d.get_buffer(), &expected[consumed..]);
        if cycle % 3 == 0 {
            d.consume(1);
            consumed = (consumed + 1).min(expected.len());
            assert_eq!(d.get_buffer(), &expected[consumed..]);
        }
    }
    assert!(!d.is_halted());
}

use dh_p2p::buffer::JitterBuffer;
use dh_p2p::seq_order::{seq_after, seq_before};
use dh_p2p::time::Duration;

#[test]
fn test_seq_after_normal() {
    // Normal cases (no wraparound)
    assert!(seq_after(10, 5));
    assert!(seq_after(100, 99));
    assert!(!seq_after(5, 10));
    assert!(!seq_after(5, 5)); // equal is not "after"
}

#[test]
fn test_seq_after_wraparound() {
    // Wraparound cases
    // 0 is after u32::MAX (just wrapped)
    assert!(seq_after(0, u32::MAX));
    assert!(seq_after(1, u32::MAX));
    assert!(seq_after(100, u32::MAX - 50));

    // u32::MAX is before 0
    assert!(!seq_after(u32::MAX, 0));
    assert!(!seq_after(u32::MAX - 50, 100));
}

#[test]
fn test_seq_before() {
    // Normal cases
    assert!(seq_before(5, 10));
    assert!(seq_before(99, 100));
    assert!(!seq_before(10, 5));
    assert!(!seq_before(5, 5)); // equal is not "before"

    // Wraparound cases
    assert!(seq_before(u32::MAX, 0)); // MAX is before 0 after wrap
    assert!(seq_before(u32::MAX - 50, 100));
    assert!(!seq_before(0, u32::MAX));
}

#[test]
fn test_seq_after_large_gap() {
    // Large gaps (close to 2^31) - edge cases
    let half = i32::MAX as u32; // 2^31 - 1

    // Just under half the space - still "after"
    assert!(seq_after(half, 0));

    // At exactly half + 1, it wraps to "before"
    assert!(!seq_after(half + 2, 0));
}

#[test]
fn test_jitter_buffer_normal_order() {
    let mut jb = JitterBuffer::new(Duration::from_millis(0));

    // Insert in order
    let r1 = jb.insert(100, 1, vec![1]);
    let r2 = jb.insert(101, 1, vec![2]);
    let r3 = jb.insert(102, 1, vec![3]);

    // With 0ms delay, all should be released immediately
    assert_eq!(r1.len(), 1);
    assert_eq!(r2.len(), 1);
    assert_eq!(r3.len(), 1);
    assert_eq!(r1[0].1, vec![1]);
    assert_eq!(r2[0].1, vec![2]);
    assert_eq!(r3[0].1, vec![3]);
}

#[test]
fn test_jitter_buffer_out_of_order() {
    let mut jb = JitterBuffer::new(Duration::from_millis(100));

    // Insert out of order
    let r1 = jb.insert(102, 1, vec![3]);
    assert!(r1.is_empty()); // Not released yet (buffer delay)

    let r2 = jb.insert(100, 1, vec![1]);
    assert!(r2.is_empty());

    let r3 = jb.insert(101, 1, vec![2]);
    assert!(r3.is_empty());

    // All 3 are buffered
    assert_eq!(jb.buffered_len(), 3);

    // Flush all - should come out in order
    let all = jb.flush_all();
    assert_eq!(all.len(), 3);
    assert_eq!(all[0].1, vec![1]); // seq 100
    assert_eq!(all[1].1, vec![2]); // seq 101
    assert_eq!(all[2].1, vec![3]); // seq 102
}

#[test]
fn test_jitter_buffer_late_packet() {
    let mut jb = JitterBuffer::new(Duration::from_millis(0));

    // Insert and release seq 100
    let _ = jb.insert(100, 1, vec![1]);

    // Try to insert seq 99 (late)
    let result = jb.insert(99, 1, vec![0]);
    assert!(result.is_empty());
    assert_eq!(jb.late_dropped(), 1);

    // Try to insert seq 100 again (duplicate of released)
    let result = jb.insert(100, 1, vec![1]);
    assert!(result.is_empty());
    assert_eq!(jb.late_dropped(), 2);
}

#[test]
fn test_jitter_buffer_wraparound() {
    let mut jb = JitterBuffer::new(Duration::from_millis(0));

    // Start near u32::MAX
    let _ = jb.insert(u32::MAX - 2, 1, vec![1]);
    let _ = jb.insert(u32::MAX - 1, 1, vec![2]);
    let _ = jb.insert(u32::MAX, 1, vec![3]);

    // Now wraparound to 0, 1, 2
    let r0 = jb.insert(0, 1, vec![4]);
    assert_eq!(r0.len(), 1);
    assert_eq!(r0[0].1, vec![4]);

    let r1 = jb.insert(1, 1, vec![5]);
    assert_eq!(r1.len(), 1);

    let r2 = jb.insert(2, 1, vec![6]);
    assert_eq!(r2.len(), 1);

    // No late drops - wraparound was handled correctly
    assert_eq!(jb.late_dropped(), 0);
    assert_eq!(jb.wraparound_count, 1);
}

#[test]
fn test_jitter_buffer_wraparound_with_reorder() {
    let mut jb = JitterBuffer::new(Duration::from_millis(100));

    // Start near u32::MAX
    let _ = jb.insert(u32::MAX - 1, 1, vec![1]);
    let _ = jb.insert(u32::MAX, 1, vec![2]);

    // Packets arrive out of order across the wrap boundary
    let _ = jb.insert(1, 1, vec![4]); // Post-wrap, out of order
    let _ = jb.insert(0, 1, vec![3]); // Post-wrap, should come before 1

    // Flush all - should be in correct order despite wraparound
    let all = jb.flush_all();
    assert_eq!(all.len(), 4);
    assert_eq!(all[0].1, vec![1]); // u32::MAX - 1
    assert_eq!(all[1].1, vec![2]); // u32::MAX
    assert_eq!(all[2].1, vec![3]); // 0 (post-wrap)
    assert_eq!(all[3].1, vec![4]); // 1 (post-wrap)
}

#[test]
fn test_jitter_buffer_late_after_wraparound() {
    let mut jb = JitterBuffer::new(Duration::from_millis(0));

    // Release packets up to and including seq 5 (after wraparound)
    let _ = jb.insert(u32::MAX, 1, vec![1]);
    let _ = jb.insert(0, 1, vec![2]);
    let _ = jb.insert(5, 1, vec![3]);

    // Now try to insert a "late" packet that's actually from before the wrap
    // u32::MAX - 10 looks like a big number but it's "before" 5 in sequence space
    let result = jb.insert(u32::MAX - 10, 1, vec![0]);
    assert!(result.is_empty());
    assert_eq!(jb.late_dropped(), 1);

    // Also try inserting seq 3, which is between 0 and 5 but already past last_released
    let result = jb.insert(3, 1, vec![0]);
    assert!(result.is_empty());
    assert_eq!(jb.late_dropped(), 2);
}

#[test]
fn test_jitter_buffer_duplicate() {
    let mut jb = JitterBuffer::new(Duration::from_millis(100));

    // Insert packet
    let _ = jb.insert(100, 1, vec![1]);
    assert_eq!(jb.buffered_len(), 1);

    // Try to insert duplicate (same seq, still buffered)
    let result = jb.insert(100, 1, vec![2]);
    assert!(result.is_empty());
    assert_eq!(jb.buffered_len(), 1); // Still just 1 packet
}

#[test]
fn test_jitter_buffer_rebase_on_earlier_seq() {
    let mut jb = JitterBuffer::new(Duration::from_millis(100));

    // Insert seq 1000 first
    let _ = jb.insert(1000, 1, vec![1]);
    assert_eq!(jb.base_seq, Some(1000));

    // Now insert seq 990 (earlier) - should trigger rebase
    let _ = jb.insert(990, 1, vec![2]);
    assert_eq!(jb.base_seq, Some(990));

    // Insert seq 995 (in between)
    let _ = jb.insert(995, 1, vec![3]);

    // Flush all - should be in order: 990, 995, 1000
    let all = jb.flush_all();
    assert_eq!(all.len(), 3);
    assert_eq!(all[0].1, vec![2]); // seq 990
    assert_eq!(all[1].1, vec![3]); // seq 995
    assert_eq!(all[2].1, vec![1]); // seq 1000
}

#[test]
fn test_jitter_buffer_multiple_realms() {
    let mut jb = JitterBuffer::new(Duration::from_millis(100));

    // Insert packets from different realms with same seq numbers
    // (seq is global, but we track realm for routing)
    let _ = jb.insert(100, 1, vec![1]); // realm 1
    let _ = jb.insert(101, 2, vec![2]); // realm 2
    let _ = jb.insert(102, 1, vec![3]); // realm 1

    let all = jb.flush_all();
    assert_eq!(all.len(), 3);
    assert_eq!(all[0], (1, vec![1])); // realm 1, seq 100
    assert_eq!(all[1], (2, vec![2])); // realm 2, seq 101
    assert_eq!(all[2], (1, vec![3])); // realm 1, seq 102
}

#[test]
fn test_jitter_buffer_wraparound_normalization_order() {
    // This test verifies that packets spanning the u32 wraparound
    // are correctly ordered in the BTreeMap using normalized keys.
    let mut jb = JitterBuffer::new(Duration::from_millis(100));

    // Start with base near u32::MAX
    let base = u32::MAX - 5;
    let _ = jb.insert(base, 1, vec![1]);           // normalized = 0
    let _ = jb.insert(base + 3, 1, vec![2]);       // normalized = 3
    let _ = jb.insert(u32::MAX, 1, vec![3]);       // normalized = 5

    // Now add packets after wraparound
    let _ = jb.insert(0, 1, vec![4]);              // normalized = 6 (wrapping_sub)
    let _ = jb.insert(5, 1, vec![5]);              // normalized = 11

    // Verify order is correct: base, base+3, MAX, 0, 5
    let all = jb.flush_all();
    assert_eq!(all.len(), 5);
    assert_eq!(all[0].1, vec![1]); // base (seq u32::MAX - 5)
    assert_eq!(all[1].1, vec![2]); // base + 3
    assert_eq!(all[2].1, vec![3]); // u32::MAX
    assert_eq!(all[3].1, vec![4]); // 0 (post-wrap)
    assert_eq!(all[4].1, vec![5]); // 5 (post-wrap)
}

#[test]
fn test_jitter_buffer_wraparound_out_of_order_across_boundary() {
    // Packets arrive out of order, spanning the wraparound boundary
    let mut jb = JitterBuffer::new(Duration::from_millis(100));

    // Packets arrive in this order: 0, MAX-1, MAX, 2, 1
    let _ = jb.insert(0, 1, vec![4]);              // First packet, becomes base
    let _ = jb.insert(u32::MAX - 1, 1, vec![2]);   // Before base in sequence space!
    let _ = jb.insert(u32::MAX, 1, vec![3]);       // Also before base
    let _ = jb.insert(2, 1, vec![6]);              // After base
    let _ = jb.insert(1, 1, vec![5]);              // After base, out of order

    // Should be ordered: MAX-1, MAX, 0, 1, 2
    let all = jb.flush_all();
    assert_eq!(all.len(), 5);
    assert_eq!(all[0].1, vec![2]); // u32::MAX - 1
    assert_eq!(all[1].1, vec![3]); // u32::MAX
    assert_eq!(all[2].1, vec![4]); // 0
    assert_eq!(all[3].1, vec![5]); // 1
    assert_eq!(all[4].1, vec![6]); // 2
}

#[test]
fn test_jitter_buffer_wraparound_count_once_per_crossing_window() {
    let mut jb = JitterBuffer::new(Duration::from_millis(100));

    // Simulate that we already released a packet near the u32 boundary.
    jb.last_released_seq = Some(u32::MAX - 1);

    // Multiple post-wrap packets arrive while last_released_seq is still pre-wrap.
    let _ = jb.insert(0, 1, vec![1]);
    let _ = jb.insert(1, 1, vec![2]);
    let _ = jb.insert(2, 1, vec![3]);

    // Should count/log wraparound once for this crossing window.
    assert_eq!(jb.wraparound_count, 1);
}

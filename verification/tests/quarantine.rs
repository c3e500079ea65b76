use wgpu_mc_core::quarantine::{Quarantine, BUFFER_QUARANTINE_BYTES, BUFFER_QUARANTINE_NANOS};

const MB: u64 = 1024 * 1024;

fn held(q: &Quarantine<&'static str>) -> Vec<&'static str> {
    q.entries.iter().map(|e| e.buffer).collect()
}

#[test]
fn the_budget_is_thirty_two_megabytes_and_half_a_second() {
    assert_eq!(BUFFER_QUARANTINE_BYTES, 32 * MB);
    assert_eq!(BUFFER_QUARANTINE_NANOS, 500_000_000);
}

#[test]
fn a_closed_buffer_is_held_until_its_half_second_is_over() {
    let mut q = Quarantine::new();
    assert!(q.quarantine_buffer("cloud", MB, 1_000).is_empty());
    assert!(q.quarantine_buffer("sky", MB, 1_000 + 499_999_999).is_empty());
    assert_eq!(held(&q), vec!["cloud", "sky"]);
    let released = q.quarantine_buffer("sun", MB, 1_000 + 500_000_000);
    assert_eq!(released, vec!["cloud"]);
    assert_eq!(held(&q), vec!["sky", "sun"]);
}

#[test]
fn the_oldest_go_until_the_newcomer_fits() {
    let mut q = Quarantine::new();
    assert!(q.quarantine_buffer("a", 12 * MB, 0).is_empty());
    assert!(q.quarantine_buffer("b", 12 * MB, 1).is_empty());
    assert!(q.quarantine_buffer("c", 8 * MB, 2).is_empty());
    // 32 MB held; 1 MB more takes out the oldest only.
    assert_eq!(q.quarantine_buffer("d", MB, 3), vec!["a"]);
    assert_eq!(held(&q), vec!["b", "c", "d"]);
    // Expired first, then evicted.
    let released = q.quarantine_buffer("e", 30 * MB, 600_000_000);
    assert_eq!(released, vec!["b", "c", "d"]);
    assert_eq!(held(&q), vec!["e"]);
}

#[test]
fn a_buffer_larger_than_the_budget_still_gets_its_half_second() {
    let mut q = Quarantine::new();
    assert!(q.quarantine_buffer("small", MB, 0).is_empty());
    assert_eq!(q.quarantine_buffer("huge", 40 * MB, 1), vec!["small"]);
    assert_eq!(held(&q), vec!["huge"]);
    assert_eq!(q.entries[0].size, 40 * MB);
    assert_eq!(q.entries[0].closed_at, 1);
}

#[test]
fn a_clock_that_runs_backwards_counts_as_no_time() {
    let mut q = Quarantine::new();
    assert!(q.quarantine_buffer("later", MB, 2_000_000_000).is_empty());
    assert!(q.quarantine_buffer("earlier", MB, 5).is_empty());
    assert_eq!(held(&q), vec!["later", "earlier"]);
}

use proctime::{CPUTimer, WallClockTimer};

#[test]
fn wall_clock_advances_monotonically() {
    let timer = WallClockTimer::start();
    let mut spin: u64 = 1;
    for i in 1..200_000u64 {
        spin = spin.wrapping_mul(i).wrapping_add(7);
    }
    assert!(spin != 0 || spin == 0);
    let first = timer.stop();
    let second = timer.stop();
    // A monotonic clock never makes the later reading smaller.
    assert!(second >= first);
}

#[test]
fn cpu_timer_reads_and_diffs() {
    let timer = CPUTimer::start().expect("reading the children's CPU counters");
    let (user, system) = timer.stop().expect("re-reading the children's CPU counters");
    // No child was spawned or reaped between the two snapshots, so the
    // counters advanced by nothing (or nearly so on a busy accounting
    // clock); both differences stay small and well-defined.
    assert!(user < 1_000_000_000);
    assert!(system < 1_000_000_000);
}

use std::time::Duration;

use lattice_core::framework::frame_controller::FrameController;

fn frame_duration_60() -> Duration {
    Duration::from_secs_f32(1.0 / 60.0)
}

#[test]
fn frame_controller_test_frame_pacing() {
    let fd = frame_duration_60();
    let mut now: u128 = 0;
    let mut controller = FrameController::new(fd.as_nanos(), now);

    // Simulate exactly one frame worth of time
    now += fd.as_nanos();
    controller.update_with_time(now);
    assert_eq!(controller.frame_count(), 1);
    assert!(controller.should_render());

    // Simulate half a frame - should not increment
    now += (fd / 2).as_nanos();
    controller.update_with_time(now);
    assert_eq!(controller.frame_count(), 1);
    assert!(!controller.should_render());

    // Simulate the next half - should increment
    now += (fd / 2).as_nanos();
    controller.update_with_time(now);
    assert_eq!(controller.frame_count(), 2);
    assert!(controller.should_render());
}

#[test]
fn frame_controller_test_lag() {
    let fd = frame_duration_60();
    let mut now: u128 = 0;
    let mut controller = FrameController::new(fd.as_nanos(), now);

    // Simulate exactly one frame worth of time
    now += fd.as_nanos();
    controller.update_with_time(now);
    assert_eq!(controller.frame_count(), 1);
    assert!(controller.should_render());

    // Simulate being three frames behind
    now += (fd * 3).as_nanos();
    controller.update_with_time(now);
    assert_eq!(controller.frame_count(), 4);
    assert!(controller.should_render());
}

#[test]
fn frame_remainder_under_a_millisecond_is_dropped() {
    let mut controller = FrameController::new(10_000_000, 0);
    controller.update_with_time(10_500_000);
    assert_eq!(controller.frame_count(), 1);
    controller.update_with_time(20_000_000);
    // 0.5 ms was dropped, so 9.5 ms have accumulated: no frame yet
    assert_eq!(controller.frame_count(), 1);
    assert!(!controller.should_render());
    controller.update_with_time(20_500_000);
    assert_eq!(controller.frame_count(), 2);
}

#[test]
fn frame_remainder_of_a_millisecond_is_kept() {
    let mut controller = FrameController::new(10_000_000, 0);
    controller.update_with_time(11_000_000);
    assert_eq!(controller.frame_count(), 1);
    controller.update_with_time(20_000_000);
    assert_eq!(controller.frame_count(), 2);
}

#[test]
fn frame_paused_counts_nothing_until_forced() {
    let mut controller = FrameController::new(10_000_000, 0);
    controller.set_paused(true);
    assert!(controller.is_paused());
    controller.update_with_time(50_000_000);
    assert_eq!(controller.frame_count(), 0);
    assert!(!controller.should_render());

    controller.advance_single_frame();
    assert!(controller.should_render());
    controller.update_with_time(50_000_000);
    assert_eq!(controller.frame_count(), 1);
    controller.clear_force_render();
    assert!(!controller.should_render());
}

#[test]
fn frame_advance_single_frame_needs_pause() {
    let mut controller = FrameController::new(10_000_000, 0);
    controller.advance_single_frame();
    assert!(!controller.should_render());
}

#[test]
fn frame_intervals_keep_the_newest_ninety() {
    let mut controller = FrameController::new(1_000_000, 0);
    for i in 1..=100u128 {
        controller.update_with_time(i * 2_000_000);
    }
    let intervals = controller.frame_intervals();
    assert_eq!(intervals.len(), 90);
    assert!(intervals.iter().all(|&x| x == 2_000_000));
    assert_eq!(controller.frame_count(), 200);
}

#[test]
fn frame_count_reset_and_set() {
    let mut controller = FrameController::new(1_000_000, 0);
    controller.update_with_time(3_000_000);
    assert_eq!(controller.frame_count(), 3);
    controller.reset_frame_count();
    assert_eq!(controller.frame_count(), 0);
    controller.set_frame_count(u32::MAX);
    controller.update_with_time(4_000_000);
    assert_eq!(controller.frame_count(), 0);
}

#[test]
fn frame_clock_going_backwards_adds_nothing() {
    let mut controller = FrameController::new(1_000_000, 5_000_000);
    controller.update_with_time(1_000_000);
    assert_eq!(controller.frame_count(), 0);
    assert!(controller.can_update(0));
}

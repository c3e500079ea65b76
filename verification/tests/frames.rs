use wgpu_mc_core::bake::{BakeQueue, MAX_QUEUED_BAKES};
use wgpu_mc_core::pix::{CaptureStage, PixAction, PixCapture, CAPTURE_FRAMES};
use wgpu_mc_core::timing::{decode_pair, elapsed_ticks, FrameEnd, FrameSlots};

#[test]
fn the_bake_queue_refuses_past_its_cap_and_gives_the_slots_back() {
    let mut queue = BakeQueue::new();

    for taken in 0..MAX_QUEUED_BAKES {
        assert!(queue.reserve_bake_slot(), "slot {taken} of {MAX_QUEUED_BAKES} was refused");
    }

    assert!(!queue.warned);
    assert!(!queue.reserve_bake_slot(), "the queue took more than its cap");
    assert!(queue.warned, "the refusal is reported");
    assert_eq!(queue.queued, MAX_QUEUED_BAKES);

    queue.release_bake_slot();
    assert!(queue.reserve_bake_slot(), "a released slot was not reusable");
    assert_eq!(queue.queued, MAX_QUEUED_BAKES);

    for _ in 0..MAX_QUEUED_BAKES {
        queue.release_bake_slot();
    }
    assert_eq!(queue.queued, 0);
}

#[test]
fn frames_take_the_slots_in_turn_and_are_read_back_after_the_present() {
    let mut slots = FrameSlots::new();
    assert_eq!(slots.frame_begin(), Some(0));
    assert_eq!(slots.frame_begin(), None, "a frame is already open");
    assert_eq!(
        slots.frame_end(256),
        Some(FrameEnd { slot: 0, first_query: 0, resolve_offset: 0 })
    );
    assert_eq!(slots.frame_end(256), None, "no frame is open");

    assert_eq!(slots.frame_begin(), Some(2));
    assert_eq!(
        slots.frame_end(256),
        Some(FrameEnd { slot: 1, first_query: 2, resolve_offset: 256 })
    );
    assert_eq!(slots.frame_presented(), vec![0, 1]);
    assert_eq!(slots.frame_presented(), Vec::<usize>::new());

    assert_eq!(slots.frame_begin(), Some(4));
    slots.frame_end(256);
    assert_eq!(slots.frame_begin(), Some(0), "the slots wrap around");
}

#[test]
fn a_readback_is_two_little_endian_ticks() {
    let mut data = Vec::new();
    data.extend_from_slice(&100u64.to_le_bytes());
    data.extend_from_slice(&350u64.to_le_bytes());
    let (start, end) = decode_pair(&data);
    assert_eq!((start, end), (100, 350));
    assert_eq!(elapsed_ticks(start, end), 250);
    assert_eq!(elapsed_ticks(u64::MAX, 4), 5, "a counter that wrapped still measures");
}

#[test]
fn a_capture_runs_for_its_frames_and_is_re_armed_by_the_switch() {
    let mut pix = PixCapture::new();
    assert_eq!(pix.tick(), PixAction::Nothing);

    pix.set_capturing(true);
    assert_eq!(pix.tick(), PixAction::Begin);
    pix.began(true);
    assert_eq!(pix.stage, CaptureStage::Running);

    for _ in 2..CAPTURE_FRAMES {
        assert_eq!(pix.tick(), PixAction::Nothing);
    }
    assert_eq!(pix.tick(), PixAction::EndAtLimit);
    assert_eq!(pix.stage, CaptureStage::Finished);
    assert_eq!(pix.tick(), PixAction::Nothing, "a finished capture waits for the switch");

    pix.set_capturing(false);
    assert_eq!(pix.tick(), PixAction::Nothing);
    assert_eq!(pix.stage, CaptureStage::Idle);

    pix.set_capturing(true);
    assert_eq!(pix.tick(), PixAction::Begin);
    pix.began(true);
    pix.set_capturing(false);
    assert_eq!(pix.tick(), PixAction::End, "the switch stops a running capture");

    pix.set_capturing(true);
    assert_eq!(pix.tick(), PixAction::Begin);
    pix.began(false);
    assert_eq!(pix.stage, CaptureStage::Finished, "a capture that did not start is not retried");
}

#[test]
fn the_newest_pix_installation_is_chosen() {
    let names: Vec<String> =
        ["2409.23", "2501.30", "notes", "2501.4", "2405"].iter().map(|s| s.to_string()).collect();
    assert_eq!(wgpu_mc_core::pix::install_version("2501.30"), Some((2501, 30)));
    assert_eq!(wgpu_mc_core::pix::install_version("2405"), Some((2405, 0)));
    assert_eq!(wgpu_mc_core::pix::install_version("2405.beta"), Some((2405, 0)));
    assert_eq!(wgpu_mc_core::pix::install_version("notes"), None);
    assert_eq!(wgpu_mc_core::pix::install_version(".5"), None);
    assert_eq!(wgpu_mc_core::pix::newest_install(&names), Some(1));
    let ties: Vec<String> = ["2501.30", "2501.030"].iter().map(|s| s.to_string()).collect();
    // Same version: the name that sorts last wins.
    assert_eq!(wgpu_mc_core::pix::newest_install(&ties), Some(0));
    let none: Vec<String> = ["x", ""].iter().map(|s| s.to_string()).collect();
    assert_eq!(wgpu_mc_core::pix::newest_install(&none), None);
}

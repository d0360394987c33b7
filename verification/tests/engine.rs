use wat3rs::camera::Camera;
use wat3rs::camera::Ext2;
use wat3rs::event::EventReciever;
use wat3rs::input::Input;
use wat3rs::queue_family::pick_device;
use wat3rs::queue_family::QueueFamilyDesc;
use wat3rs::queue_family::QueueFamilyIndices;
use wat3rs::scalar::FIX_ONE;
use wat3rs::swapchain::select_present_mode;
use wat3rs::swapchain::select_surface_format;
use wat3rs::swapchain::SurfaceFormat;
use wat3rs::swapchain::COLOR_SPACE_SRGB_NONLINEAR;
use wat3rs::swapchain::FORMAT_B8G8R8A8_SRGB;
use wat3rs::swapchain::PRESENT_MODE_FIFO;
use wat3rs::swapchain::PRESENT_MODE_MAILBOX;
use wat3rs::timer::Timer;
use wat3rs::vector::Vec2;
use wat3rs::vector::Vec3;

#[test]
fn event_queue_is_first_in_first_out() {
    let mut q: EventReciever<u32> = EventReciever::new();
    let s = q.create_sender();
    assert_eq!(q.len(), 0);
    s.add_event(&mut q, 10);
    s.add_event(&mut q, 20);
    let s2 = s.clone();
    s2.add_event(&mut q, 30);
    assert_eq!(q.len(), 3);
    assert_eq!(q.poll_event(), Some(10));
    assert_eq!(q.poll_event(), Some(20));
    assert_eq!(q.poll_event(), Some(30));
    assert_eq!(q.poll_event(), None);
}

#[test]
fn input_tracks_presses_clicks_and_releases() {
    let mut input = Input::new();
    let key = 65u64;
    assert!(!input.get_state().is_key_pressed(key));
    input.on_key_change(key, true);
    assert!(input.get_state().is_key_pressed(key));
    assert!(input.get_state().is_key_clicked(key));
    input.clear_changed();
    assert!(input.get_state().is_key_pressed(key));
    assert!(!input.get_state().is_key_clicked(key));
    input.on_key_change(key, false);
    assert!(input.get_state().is_key_released(key));
    input.on_key_change(key, false);
    assert!(!input.get_state().is_key_released(key));
}

#[test]
fn timer_measures_time_and_rate() {
    let mut t = Timer::new(1_000_000);
    assert_eq!(t.get_time(), 0);
    t.response(1_016_000);
    assert_eq!(t.get_time(), 16_000);
    assert_eq!(t.get_delta_time(), 16_000);
    assert_eq!(t.get_fps(), 30_000);
    t.response(2_016_000);
    // The one-second gauge window passed after two frames in 1.016 s.
    assert_eq!(t.get_fps(), 2 * 1_000_000_000 / 1_016_000);
    t.reset_time(5_000_000);
    assert_eq!(t.get_time(), 0);
}

#[test]
fn timer_pause_freezes_local_time() {
    let mut t = Timer::new(0);
    t.response(100_000);
    assert_eq!(t.get_time(), 100_000);
    // A pause request takes effect at the next tick: the local clock
    // freezes and the local delta drops to zero, while the global one
    // keeps running.
    t.set_is_paused(true);
    assert!(!t.get_is_paused());
    t.response(200_000);
    assert!(t.get_is_paused());
    assert_eq!(t.get_time(), 100_000);
    assert_eq!(t.get_delta_time(), 0);
    assert_eq!(t.get_global_time(), 200_000);
    assert_eq!(t.get_global_delta_time(), 100_000);
    t.response(300_000);
    assert_eq!(t.get_time(), 100_000);
    // Resuming excludes the whole paused interval: no jump.
    t.set_is_paused(false);
    t.response(400_000);
    assert!(!t.get_is_paused());
    assert_eq!(t.get_time(), 200_000);
    assert_eq!(t.get_global_time(), 400_000);
}

#[test]
fn queue_family_selection() {
    // The first fully capable family is the main one; the last other
    // present-capable family presents.
    let fams = vec![
        QueueFamilyDesc { flags: 1, present_support: false },
        QueueFamilyDesc { flags: 7, present_support: true },
        QueueFamilyDesc { flags: 0, present_support: true },
        QueueFamilyDesc { flags: 2, present_support: true },
    ];
    let r = QueueFamilyIndices::new(&fams).unwrap();
    assert_eq!(r.main, 1);
    assert_eq!(r.present, 3);
    // With nobody else able to present, the main family presents.
    let fams2 = vec![QueueFamilyDesc { flags: 7, present_support: true }];
    let r2 = QueueFamilyIndices::new(&fams2).unwrap();
    assert_eq!(r2.main, 0);
    assert_eq!(r2.present, 0);
    // No fully capable family means no selection at all.
    let fams3 = vec![QueueFamilyDesc { flags: 3, present_support: true }];
    assert!(QueueFamilyIndices::new(&fams3).is_none());
}

#[test]
fn camera_defaults() {
    let cam = Camera::new();
    assert_eq!(cam.get_projection().near, 3277);
    assert_eq!(cam.get_projection().size, Vec2 { x: 6554, y: 6554 });
    assert_eq!(cam.get_location().up, Vec3 { x: 0, y: FIX_ONE, z: 0 });
    assert_eq!(cam.get_location().right, Vec3 { x: FIX_ONE, y: 0, z: 0 });
    assert_eq!(cam.get_location().direction, Vec3 { x: 0, y: 0, z: -FIX_ONE });
    assert_eq!(cam.get_projection().far, 0x1000_0000);
    assert_eq!(cam.get_location().location, Vec3 { x: 0, y: 0, z: FIX_ONE });
    assert_eq!(cam.get_location().at, Vec3 { x: 0, y: 0, z: 0 });
}

#[test]
fn camera_resize_same_extent_changes_nothing() {
    let mut cam = Camera::new();
    let before = *cam.get_matrices();
    cam.resize(Ext2 { w: 800, h: 600 });
    assert_eq!(*cam.get_matrices(), before);
}

#[test]
fn camera_projection_scales_with_aspect() {
    let mut cam = Camera::new();
    // A square logical size of one unit on an 800 by 600 window: the
    // horizontal extent widens by 4/3, the vertical stays.
    cam.set_projection(FIX_ONE, 1024 * FIX_ONE, Vec2 { x: FIX_ONE, y: FIX_ONE });
    let proj = cam.get_matrices().projection;
    // 2n / (r - l) with the widened horizontal extent 4/3.
    assert_eq!(proj.data[0][0], 98305);
    // 2n / (t - b) with the vertical extent exactly one.
    assert_eq!(proj.data[1][1], 2 * FIX_ONE);
    // Taller than wide, the roles swap.
    cam.resize(Ext2 { w: 600, h: 800 });
    let proj2 = cam.get_matrices().projection;
    assert_eq!(proj2.data[0][0], 2 * FIX_ONE);
    assert_eq!(proj2.data[1][1], 98305);
}

#[test]
fn camera_set_rebuilds_the_view_frame() {
    let mut cam = Camera::new();
    cam.set(
        Vec3 { x: 0, y: 0, z: FIX_ONE },
        Vec3 { x: 0, y: 0, z: 0 },
        Vec3 { x: 0, y: FIX_ONE, z: 0 },
    );
    let loc = cam.get_location();
    assert_eq!(loc.direction, Vec3 { x: 0, y: 0, z: -FIX_ONE });
    assert_eq!(loc.right, Vec3 { x: FIX_ONE, y: 0, z: 0 });
    assert_eq!(loc.up, Vec3 { x: 0, y: FIX_ONE, z: 0 });
    let view = cam.get_matrices().view;
    assert_eq!(view.data[0][0], FIX_ONE);
    assert_eq!(view.data[1][1], FIX_ONE);
    assert_eq!(view.data[2][2], FIX_ONE);
    assert_eq!(view.data[3][2], -FIX_ONE);
    assert_eq!(view.data[3][3], FIX_ONE);
}

#[test]
fn swapchain_present_mode_selection() {
    assert_eq!(select_present_mode(&vec![PRESENT_MODE_FIFO, PRESENT_MODE_MAILBOX]), PRESENT_MODE_MAILBOX);
    assert_eq!(select_present_mode(&vec![PRESENT_MODE_FIFO]), PRESENT_MODE_FIFO);
    assert_eq!(select_present_mode(&vec![]), PRESENT_MODE_FIFO);
}

#[test]
fn swapchain_surface_format_selection() {
    let wanted = SurfaceFormat {
        format: FORMAT_B8G8R8A8_SRGB,
        color_space: COLOR_SPACE_SRGB_NONLINEAR,
    };
    let other = SurfaceFormat { format: 37, color_space: 5 };
    let near = SurfaceFormat { format: FORMAT_B8G8R8A8_SRGB, color_space: 5 };
    assert_eq!(select_surface_format(&vec![other, wanted]), Some(wanted));
    assert_eq!(select_surface_format(&vec![other, near]), Some(near));
    assert_eq!(select_surface_format(&vec![other]), Some(other));
    assert_eq!(select_surface_format(&vec![]), None);
}

#[test]
fn device_pick_prefers_the_greatest_rate() {
    // Unsuitable devices are skipped; the first of equal top rates wins.
    assert_eq!(pick_device(&vec![None, Some(100), Some(400), Some(400), None]), Some(2));
    assert_eq!(pick_device(&vec![Some(5)]), Some(0));
    assert_eq!(pick_device(&vec![None, None]), None);
    assert_eq!(pick_device(&vec![]), None);
}

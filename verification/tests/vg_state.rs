use wsarndr::renderer::{FrameState, PresentOutcome, UiQueue, WindowSizeProvider};
use wsarndr::vg::shape::{argb_channels, Channels8, GradMode};
use wsarndr::vg::{grown_vertex_capacity, spirv_words, TransformStack};
use wsarndr::{DisplayHandleKind, HandleUnavailable, PlatformWindow, WindowHandleKind};

#[test]
fn capacity_grows_to_power_of_two() {
    assert_eq!(grown_vertex_capacity(100, 65536), None);
    assert_eq!(grown_vertex_capacity(65536, 65536), None);
    assert_eq!(grown_vertex_capacity(70000, 65536), Some(131072));
    assert_eq!(grown_vertex_capacity(10, 0), Some(65536));
    assert_eq!(grown_vertex_capacity(131072, 65536), Some(131072));
}

#[test]
fn translation_stack() {
    let mut s = TransformStack::new((0i32, 0i32));
    s.push((5, 7));
    assert_eq!(s.current(), (5, 7));
    s.push((6, 9));
    s.pop();
    assert_eq!(s.current(), (5, 7));
    s.pop();
    assert_eq!(s.current(), (0, 0));
    s.pop();
    assert_eq!(s.current(), (0, 0));
    s.push((1, 1));
    s.reset((0, 0));
    s.pop();
    assert_eq!(s.current(), (0, 0));
}

#[test]
fn spirv_little_endian_words() {
    assert_eq!(spirv_words(&[0x03, 0x02, 0x23, 0x07, 1, 0, 0, 0, 9]), vec![0x0723_0203, 1]);
    assert!(spirv_words(&[1, 2, 3]).is_empty());
}

#[test]
fn argb_bytes() {
    assert_eq!(
        argb_channels(0x80FF_4020),
        Channels8 { r: 0xFF, g: 0x40, b: 0x20, a: 0x80 }
    );
    assert_eq!(argb_channels(0), Channels8 { r: 0, g: 0, b: 0, a: 0 });
}

#[test]
fn gradient_defaults_to_solid() {
    assert_eq!(GradMode::default(), GradMode::Solid);
}

#[test]
fn queue_hands_out_in_order() {
    let mut q = UiQueue::new();
    q.push("rect");
    q.push("text");
    assert_eq!(q.take_all(), vec!["rect", "text"]);
    assert!(q.take_all().is_empty());
    q.push("line");
    q.clear();
    assert!(q.take_all().is_empty());
}

#[test]
fn frames_alternate_until_swapchain_is_stale() {
    let mut f = FrameState::new();
    assert!(f.can_render());
    f.image_acquired(false);
    assert_eq!(f.frame_presented(PresentOutcome::Presented), Ok(()));
    assert_eq!(f.current_frame(), 1);
    assert_eq!(f.frame_presented(PresentOutcome::Presented), Ok(()));
    assert_eq!(f.current_frame(), 0);
    assert_eq!(f.frame_presented(PresentOutcome::Failed(-4)), Err(-4));
    assert_eq!(f.current_frame(), 0);
    assert!(f.can_render());
    assert_eq!(f.frame_presented(PresentOutcome::OutOfDate), Ok(()));
    assert!(!f.can_render());
    assert!(f.dirty_swapchain());
    f.swapchain_recreated();
    assert!(f.can_render());
    f.image_acquired(true);
    assert!(!f.can_render());
}

#[test]
fn window_handles() {
    let w = |t, h, d| PlatformWindow { win_type: t, win_handle: h, display_handle: d };
    assert_eq!(w(0, 42, 0).window_handle_kind(), Ok(WindowHandleKind::Xlib(42)));
    assert_eq!(w(0, 42, 0).display_handle_kind(), Ok(DisplayHandleKind::Xlib(None)));
    assert_eq!(w(2, 42, 7).display_handle_kind(), Ok(DisplayHandleKind::Xcb(Some(7))));
    assert_eq!(w(2, 42, 0).display_handle_kind(), Ok(DisplayHandleKind::Xcb(None)));
    assert_eq!(w(1, 0, 7).window_handle_kind(), Err(HandleUnavailable));
    assert_eq!(w(1, 9, 0).display_handle_kind(), Err(HandleUnavailable));
    assert_eq!(w(1, 9, 7).window_handle_kind(), Ok(WindowHandleKind::Wayland(9)));
    assert_eq!(w(2, 1usize << 32, 0).window_handle_kind(), Err(HandleUnavailable));
    assert_eq!(w(2, 5, 0).window_handle_kind(), Ok(WindowHandleKind::Xcb(5)));
    assert_eq!(w(3, 5, 0).window_handle_kind(), Ok(WindowHandleKind::Win32(5)));
    assert_eq!(w(3, 5, 0).display_handle_kind(), Ok(DisplayHandleKind::Windows));
    assert_eq!(w(4, 5, 5).window_handle_kind(), Err(HandleUnavailable));
    assert_eq!(w(4, 5, 5).display_handle_kind(), Err(HandleUnavailable));
    assert_eq!(w(0, 1, 1).size(), None);
    assert_eq!((&w(0, 1, 1)).size(), None);
}

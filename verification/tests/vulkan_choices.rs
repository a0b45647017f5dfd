use wsarndr::vk::{
    choose_composite_alpha, choose_extent, choose_image_count, choose_present_mode,
    choose_surface_format, find_memory_type, instance_extensions, layout_transition,
    unique_queue_families, validation_layers, Extent, LayoutBarrier, QueueFamilyScan,
    SurfaceFormat, UnsupportedTransition,
};

#[test]
fn preferred_format_wins() {
    let other = SurfaceFormat { format: 50, color_space: 0 };
    let bgra = SurfaceFormat { format: 44, color_space: 0 };
    assert_eq!(choose_surface_format(&[other, bgra]), bgra);
    let bgra_other_space = SurfaceFormat { format: 44, color_space: 3 };
    assert_eq!(choose_surface_format(&[other, bgra_other_space]), other);
    assert_eq!(choose_surface_format(&[bgra_other_space]), bgra_other_space);
}

#[test]
fn mailbox_else_fifo() {
    assert_eq!(choose_present_mode(&[0, 2, 1]), 1);
    assert_eq!(choose_present_mode(&[0, 2, 3]), 2);
    assert_eq!(choose_present_mode(&[]), 2);
}

#[test]
fn extent_choice() {
    let cur = Extent { width: 800, height: 600 };
    let free = Extent { width: u32::MAX, height: u32::MAX };
    let asked = Extent { width: 1024, height: 768 };
    let forced = Extent { width: 640, height: 480 };
    assert_eq!(choose_extent(Some(forced), cur, Some(asked)), forced);
    assert_eq!(choose_extent(None, cur, Some(asked)), cur);
    assert_eq!(choose_extent(None, free, Some(asked)), asked);
    assert_eq!(choose_extent(None, free, None), Extent { width: 1280, height: 720 });
    let half_free = Extent { width: 800, height: u32::MAX };
    assert_eq!(choose_extent(None, half_free, None), Extent { width: 1280, height: 720 });
}

#[test]
fn image_count_one_above_minimum() {
    assert_eq!(choose_image_count(2, 0), 3);
    assert_eq!(choose_image_count(2, 8), 3);
    assert_eq!(choose_image_count(3, 3), 3);
}

#[test]
fn composite_alpha_choice() {
    assert_eq!(choose_composite_alpha(0b1001), 1);
    assert_eq!(choose_composite_alpha(0b1000), 8);
    assert_eq!(choose_composite_alpha(0), 8);
}

#[test]
fn queue_scan_keeps_first_of_each() {
    let mut scan = QueueFamilyScan::new();
    assert!(!scan.is_complete());
    scan.observe(0, 0b100, true); // transfer only, can present
    assert_eq!(scan.present, Some(0));
    assert_eq!(scan.graphics, None);
    assert_eq!(scan.families(), None);
    scan.observe(1, 0b111, true);
    assert!(scan.is_complete());
    scan.observe(2, 0b1, true);
    assert_eq!(scan.families(), Some((1, 0)));
}

#[test]
fn queue_families_once_each() {
    assert_eq!(unique_queue_families(0, 0), vec![0]);
    assert_eq!(unique_queue_families(0, 2), vec![0, 2]);
}

#[test]
fn first_fitting_memory_type() {
    let flags = [0b01, 0b10, 0b11, 0b110];
    assert_eq!(find_memory_type(0b1111, &flags, 0b10), Some(1));
    assert_eq!(find_memory_type(0b1101, &flags, 0b10), Some(2));
    assert_eq!(find_memory_type(0b0001, &flags, 0b10), None);
    assert_eq!(find_memory_type(0b1000, &flags, 0b110), Some(3));
    assert_eq!(find_memory_type(u32::MAX, &[], 0), None);
}

#[test]
fn layout_barriers() {
    assert_eq!(
        layout_transition(0, 7),
        Ok(LayoutBarrier { src_access: 0, dst_access: 0x1000, src_stage: 1, dst_stage: 0x1000 })
    );
    assert_eq!(
        layout_transition(7, 5),
        Ok(LayoutBarrier { src_access: 0x1000, dst_access: 0x20, src_stage: 0x1000, dst_stage: 0x80 })
    );
    assert_eq!(layout_transition(5, 7), Err(UnsupportedTransition { from: 5, to: 7 }));
}

#[test]
fn validation_layer_only_when_offered() {
    let offered = vec!["VK_LAYER_MESA_overlay".to_string(), "VK_LAYER_KHRONOS_validation".to_string()];
    assert_eq!(validation_layers(true, &offered), vec!["VK_LAYER_KHRONOS_validation".to_string()]);
    assert!(validation_layers(false, &offered).is_empty());
    assert!(validation_layers(true, &vec!["VK_LAYER_MESA_overlay".to_string()]).is_empty());
}

#[test]
fn debug_utils_appended_with_validation() {
    let req = vec!["VK_KHR_surface".to_string(), "VK_KHR_xlib_surface".to_string()];
    assert_eq!(instance_extensions(req.clone(), false), req);
    let mut want = req.clone();
    want.push("VK_EXT_debug_utils".to_string());
    assert_eq!(instance_extensions(req, true), want);
}

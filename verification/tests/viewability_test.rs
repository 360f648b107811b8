use adverify::viewability::{is_video, position_class, visible_extent, Placement, PositionClass};

fn placement(w: u32, h: u32, vw: u32, vh: u32, y: u32, x: u32, format: &str, pos: Option<u8>) -> Placement {
    Placement {
        ad_width: w,
        ad_height: h,
        viewport_width: vw,
        viewport_height: vh,
        ad_position_y: y,
        ad_position_x: x,
        ad_format: format.into(),
        position_type: pos,
    }
}

#[test]
fn fully_visible_ad_extent() {
    let p = placement(300, 250, 1024, 768, 100, 100, "display", Some(1));
    assert_eq!(visible_extent(&p), Some((300, 250)));
    assert_eq!(position_class(&p), PositionClass::AboveFold);
}

#[test]
fn hidden_ad_has_no_extent() {
    let p = placement(300, 250, 1024, 768, 10000, 100, "display", Some(3));
    assert_eq!(visible_extent(&p), None);
    assert_eq!(position_class(&p), PositionClass::BelowFold { fold_distance: 9232 });
}

#[test]
fn partially_visible_ad_extent() {
    let p = placement(400, 300, 800, 600, 400, 0, "display", None);
    // 200 of 300 rows are inside the viewport: 80000 / 120000 of the pixels.
    assert_eq!(visible_extent(&p), Some((400, 200)));
    assert_eq!(position_class(&p), PositionClass::UnmarkedAboveFold);
}

#[test]
fn zero_area_ad_is_not_visible() {
    assert_eq!(visible_extent(&placement(0, 250, 1024, 768, 0, 0, "display", None)), None);
}

#[test]
fn position_classes() {
    assert_eq!(position_class(&placement(1, 1, 10, 10, 5, 0, "display", Some(3))), PositionClass::BelowFoldMarkedInView);
    assert_eq!(position_class(&placement(1, 1, 10, 10, 5, 0, "display", Some(7))), PositionClass::Header);
    assert_eq!(position_class(&placement(1, 1, 10, 10, 5, 0, "display", Some(4))), PositionClass::SideRail);
    assert_eq!(position_class(&placement(1, 1, 10, 10, 10, 0, "display", Some(2))), PositionClass::UnmarkedBelowFold);
}

#[test]
fn video_format_is_case_insensitive() {
    assert!(is_video(&placement(640, 480, 1920, 1080, 200, 200, "VIDEO", Some(1))));
    assert!(is_video(&placement(640, 480, 1920, 1080, 200, 200, "video", Some(1))));
    assert!(!is_video(&placement(640, 480, 1920, 1080, 200, 200, "display", Some(1))));
}

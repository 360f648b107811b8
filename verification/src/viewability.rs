//! Viewability geometry: how much of an ad lies inside the viewport, where it
//! sits relative to the fold, and whether it is a video.
//!
//! The IAB standard asks for at least half of the pixels visible for one second
//! (display) or two seconds (video); the probabilities and time scores built on
//! this geometry are floating-point and computed by the application layer.
use vstd::prelude::*;

use crate::text::{chars_of, eq_ignore_ascii_case, eq_ignore_ascii_case_exec};

verus! {

/// The geometry and format of an ad placement.
#[derive(Debug, Clone)]
pub struct Placement {
    /// Ad creative width in CSS pixels.
    pub ad_width: u32,
    /// Ad creative height in CSS pixels.
    pub ad_height: u32,
    /// Viewport width in CSS pixels.
    pub viewport_width: u32,
    /// Viewport height in CSS pixels.
    pub viewport_height: u32,
    /// Vertical position of the ad (px from the top of the page).
    pub ad_position_y: u32,
    /// Horizontal position of the ad (px from the left of the page).
    pub ad_position_x: u32,
    /// Ad format: "display" or "video".
    pub ad_format: String,
    /// Position type (OpenRTB 5.4): 1 above the fold, 3 below the fold, 4 side rail, 7 header.
    pub position_type: Option<u8>,
}

/// Where a placement sits, as far as its position score depends on it.
#[derive(Debug, Clone, Copy, PartialEq, Eq)]
pub enum PositionClass {
    /// Marked above the fold.
    AboveFold,
    /// Marked below the fold and starting `fold_distance` pixels below it.
    BelowFold { fold_distance: u32 },
    /// Marked below the fold but starting at or above the fold.
    BelowFoldMarkedInView,
    /// Marked as header.
    Header,
    /// Marked as left or right rail.
    SideRail,
    /// Unmarked, starting above the fold.
    UnmarkedAboveFold,
    /// Unmarked (or marked otherwise), starting at or below the fold.
    UnmarkedBelowFold,
}

/// The smaller of two numbers.
pub open spec fn min_nat(a: nat, b: nat) -> nat {
    if a <= b {
        a
    } else {
        b
    }
}

/// The width and height of the part of the ad inside the viewport (which spans
/// from the origin to its width and height), or `None` when nothing of the ad
/// is inside or the ad has no area.
pub open spec fn visible_extent_spec(p: Placement) -> Option<(nat, nat)> {
    let right = min_nat(p.ad_position_x as nat + p.ad_width as nat, p.viewport_width as nat);
    let bottom = min_nat(p.ad_position_y as nat + p.ad_height as nat, p.viewport_height as nat);
    if p.ad_position_x >= right || p.ad_position_y >= bottom {
        None
    } else if (p.ad_width as nat) * (p.ad_height as nat) == 0 {
        None
    } else {
        Some(((right - p.ad_position_x) as nat, (bottom - p.ad_position_y) as nat))
    }
}

/// The position class of a placement.
pub open spec fn position_class_spec(p: Placement) -> PositionClass {
    match p.position_type {
        Some(1) => PositionClass::AboveFold,
        Some(3) => if p.ad_position_y > p.viewport_height {
            PositionClass::BelowFold { fold_distance: (p.ad_position_y - p.viewport_height) as u32 }
        } else {
            PositionClass::BelowFoldMarkedInView
        },
        Some(7) => PositionClass::Header,
        Some(4) => PositionClass::SideRail,
        _ => if p.ad_position_y < p.viewport_height {
            PositionClass::UnmarkedAboveFold
        } else {
            PositionClass::UnmarkedBelowFold
        },
    }
}

/// The smaller of two numbers.
fn min_u64(a: u64, b: u64) -> (r: u64)
    ensures
        r == min_nat(a as nat, b as nat),
{
    if a <= b {
        a
    } else {
        b
    }
}

/// The width and height of the part of the ad inside the viewport, or `None`
/// when nothing of it is.
pub fn visible_extent(p: &Placement) -> (r: Option<(u64, u64)>)
    ensures
        match r {
            Some((w, h)) => visible_extent_spec(*p) == Some((w as nat, h as nat)),
            None => visible_extent_spec(*p) is None,
        },
{
    let right = min_u64(p.ad_position_x as u64 + p.ad_width as u64, p.viewport_width as u64);
    let bottom = min_u64(p.ad_position_y as u64 + p.ad_height as u64, p.viewport_height as u64);
    if p.ad_position_x as u64 >= right || p.ad_position_y as u64 >= bottom {
        return None;
    }
    if p.ad_width == 0 || p.ad_height == 0 {
        assert((p.ad_width as nat) * (p.ad_height as nat) == 0);
        return None;
    }
    assert((p.ad_width as nat) * (p.ad_height as nat) != 0) by (nonlinear_arith)
        requires
            p.ad_width != 0,
            p.ad_height != 0,
    ;
    Some((right - p.ad_position_x as u64, bottom - p.ad_position_y as u64))
}

/// The position class of a placement.
pub fn position_class(p: &Placement) -> (r: PositionClass)
    ensures
        r == position_class_spec(*p),
{
    match p.position_type {
        Some(1) => PositionClass::AboveFold,
        Some(3) => if p.ad_position_y > p.viewport_height {
            PositionClass::BelowFold { fold_distance: p.ad_position_y - p.viewport_height }
        } else {
            PositionClass::BelowFoldMarkedInView
        },
        Some(7) => PositionClass::Header,
        Some(4) => PositionClass::SideRail,
        _ => if p.ad_position_y < p.viewport_height {
            PositionClass::UnmarkedAboveFold
        } else {
            PositionClass::UnmarkedBelowFold
        },
    }
}

/// Whether the placement is a video (its format is "video" in any ASCII case).
pub fn is_video(p: &Placement) -> (r: bool)
    ensures
        r == eq_ignore_ascii_case(p.ad_format@, "video"@),
{
    let format = chars_of(p.ad_format.as_str());
    let video = chars_of("video");
    eq_ignore_ascii_case_exec(&format, &video)
}

/// The visible part of an ad never exceeds the ad: the visible pixel ratio is at most one.
pub proof fn lemma_visible_within_ad(p: Placement)
    ensures
        visible_extent_spec(p) matches Some((w, h)) ==> 0 < w <= p.ad_width && 0 < h <= p.ad_height,
{
}

/// An ad that lies wholly inside the viewport is wholly visible.
pub proof fn lemma_inside_viewport_fully_visible(p: Placement)
    requires
        p.ad_width > 0,
        p.ad_height > 0,
        p.ad_position_x + p.ad_width <= p.viewport_width,
        p.ad_position_y + p.ad_height <= p.viewport_height,
    ensures
        visible_extent_spec(p) == Some((p.ad_width as nat, p.ad_height as nat)),
{
    assert((p.ad_width as nat) * (p.ad_height as nat) != 0) by (nonlinear_arith)
        requires
            p.ad_width > 0,
            p.ad_height > 0,
    ;
}

/// An ad that starts at or beyond the viewport's right or bottom edge is not visible.
pub proof fn lemma_outside_viewport_invisible(p: Placement)
    requires
        p.ad_position_x >= p.viewport_width || p.ad_position_y >= p.viewport_height,
    ensures
        visible_extent_spec(p) is None,
{
}

/// The visible part of an ad is its overlap with the viewport: nothing is
/// visible exactly when the ad has no area or starts at or beyond the
/// viewport's right or bottom edge; otherwise the visible part starts where the
/// ad does, never reaches past the viewport, and ends at the ad's own edge or at
/// the viewport's, whichever comes first.
pub proof fn lemma_visible_part_is_the_overlap(p: Placement)
    ensures
        visible_extent_spec(p) is None <==> (p.ad_width == 0 || p.ad_height == 0 || p.ad_position_x
            >= p.viewport_width || p.ad_position_y >= p.viewport_height),
        visible_extent_spec(p) matches Some((w, h)) ==> {
            &&& p.ad_position_x + w <= p.viewport_width
            &&& p.ad_position_y + h <= p.viewport_height
            &&& w == p.ad_width || p.ad_position_x + w == p.viewport_width
            &&& h == p.ad_height || p.ad_position_y + h == p.viewport_height
            &&& w == if p.ad_position_x + p.ad_width <= p.viewport_width {
                p.ad_width as int
            } else {
                p.viewport_width - p.ad_position_x
            }
            &&& h == if p.ad_position_y + p.ad_height <= p.viewport_height {
                p.ad_height as int
            } else {
                p.viewport_height - p.ad_position_y
            }
        },
{
    assert(((p.ad_width as nat) * (p.ad_height as nat) == 0) <==> (p.ad_width == 0 || p.ad_height
        == 0)) by (nonlinear_arith);
}

/// How a placement is classed: by its marked position type (above the fold,
/// header, side rail; below the fold, with its distance below the fold when it
/// starts below it), and when it is unmarked (or marked otherwise) by whether it
/// starts above the fold.
pub proof fn lemma_position_classes(p: Placement)
    ensures
        position_class_spec(p) == PositionClass::AboveFold <==> p.position_type == Some(1u8),
        position_class_spec(p) == PositionClass::Header <==> p.position_type == Some(7u8),
        position_class_spec(p) == PositionClass::SideRail <==> p.position_type == Some(4u8),
        position_class_spec(p) == PositionClass::BelowFoldMarkedInView <==> (p.position_type == Some(
            3u8,
        ) && p.ad_position_y <= p.viewport_height),
        position_class_spec(p) matches PositionClass::BelowFold { fold_distance } ==> p.position_type
            == Some(3u8) && fold_distance > 0 && p.ad_position_y == p.viewport_height + fold_distance,
        (p.position_type == Some(3u8) && p.ad_position_y > p.viewport_height) ==> position_class_spec(
            p,
        ) is BelowFold,
        position_class_spec(p) == PositionClass::UnmarkedAboveFold <==> (p.position_type != Some(1u8)
            && p.position_type != Some(3u8) && p.position_type != Some(4u8) && p.position_type != Some(
            7u8,
        ) && p.ad_position_y < p.viewport_height),
        position_class_spec(p) == PositionClass::UnmarkedBelowFold <==> (p.position_type != Some(1u8)
            && p.position_type != Some(3u8) && p.position_type != Some(4u8) && p.position_type != Some(
            7u8,
        ) && p.ad_position_y >= p.viewport_height),
{
}

} // verus!

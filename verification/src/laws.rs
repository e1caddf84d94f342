//! What holds of the transfers and the drawing routines taken together,
//! stated over the pictures that their contracts speak of.

use vstd::prelude::*;
use crate::arith::{spec_max, spec_min};
use crate::blit::{BlitMethod, lemma_blit_unclipped, lemma_mirrored};
use crate::clip::{ClippedBlit, clipped_blit, fits_unclipped};
use crate::paint::{Ink, Shape, lemma_paint, lemma_painted};
use crate::raster::{Raster, lemma_same_pixels};
use crate::rect::Rect;

verus! {

/// Clipping leaves a transfer that fits as it is: the region and where it
/// lands are not changed.
pub proof fn lemma_clip_keeps_what_fits(clip: Rect, src: Rect, dest_x: int, dest_y: int)
    requires
        fits_unclipped(clip, src, dest_x, dest_y),
    ensures
        clipped_blit(clip, src, dest_x, dest_y) == Some(
            ClippedBlit { src_region: src, dest_x, dest_y },
        ),
{
}

/// Clipping drops a transfer that ends before the clip rectangle begins, to
/// its left or above it.
pub proof fn lemma_clip_drops_what_ends_before(clip: Rect, src: Rect, dest_x: int, dest_y: int)
    requires
        dest_x + src.width <= clip.x || dest_y + src.height <= clip.y,
    ensures
        clipped_blit(clip, src, dest_x, dest_y) is None,
{
}

/// What clipping leaves of a transfer is not empty, is part of the region,
/// starts inside the clip rectangle and ends short of its extent; and every
/// source pixel that is left faces the destination pixel that it faced
/// before.
pub proof fn lemma_clip_result(clip: Rect, src: Rect, dest_x: int, dest_y: int)
    requires
        src.spec_right() <= i32::MAX,
        src.spec_bottom() <= i32::MAX,
        i32::MIN <= dest_x <= i32::MAX,
        i32::MIN <= dest_y <= i32::MAX,
        clipped_blit(clip, src, dest_x, dest_y) is Some,
    ensures
        ({
            let left = clipped_blit(clip, src, dest_x, dest_y)->0;
            &&& left.src_region.has_area()
            &&& src.spec_contains_rect(&left.src_region)
            &&& left.dest_x - dest_x == left.src_region.x - src.x
            &&& left.dest_y - dest_y == left.src_region.y - src.y
            &&& clip.x <= left.dest_x
            &&& clip.y <= left.dest_y
            &&& left.dest_x + left.src_region.width <= clip.width
            &&& left.dest_y + left.src_region.height <= clip.height
        }),
{
}

/// A clipped transfer of a region that the source's clip rectangle holds, to
/// a place where it fits, is the transfer without clipping.
pub proof fn lemma_blit_that_fits(
    dest: Raster,
    source: Raster,
    method: BlitMethod,
    region: Rect,
    dest_x: int,
    dest_y: int,
)
    requires
        dest.wf(),
        source.wf(),
        source.clip.spec_contains_rect(&region),
        fits_unclipped(dest.clip, region, dest_x, dest_y),
    ensures
        dest.blit(source, method, region, dest_x, dest_y) == dest.blit_unclipped(
            source,
            method,
            region,
            dest_x,
            dest_y,
        ),
        dest.admits_blit(source, region, dest_x, dest_y),
{
    assert(region.spec_overlaps(&source.clip));
    assert(region.spec_intersection(&source.clip) == region);
    let left = clipped_blit(dest.clip, region, dest_x, dest_y)->0;
    assert(left.src_region == region);
}

/// A clipped transfer changes no pixel outside the clip rectangle.
pub proof fn lemma_blit_stays_in_clip(
    dest: Raster,
    source: Raster,
    method: BlitMethod,
    region: Rect,
    dest_x: int,
    dest_y: int,
    x: int,
    y: int,
)
    requires
        dest.wf(),
        dest.in_bounds(x, y),
        !dest.visible(x, y),
    ensures
        dest.blit(source, method, region, dest_x, dest_y).pixel(x, y) == dest.pixel(x, y),
{
    match dest.clip_transfer(source, region, dest_x, dest_y) {
        Some(left) => {
            lemma_blit_unclipped(
                dest,
                source,
                method,
                left.src_region,
                left.dest_x,
                left.dest_y,
            );
        },
        None => {},
    }
}

/// A transfer that is made a second time with the same arguments changes
/// nothing: the picture after both is the picture after the first.
pub proof fn lemma_blit_unclipped_twice(
    dest: Raster,
    source: Raster,
    method: BlitMethod,
    region: Rect,
    dest_x: int,
    dest_y: int,
)
    requires
        dest.wf(),
    ensures
        dest.blit_unclipped(source, method, region, dest_x, dest_y).blit_unclipped(
            source,
            method,
            region,
            dest_x,
            dest_y,
        ) == dest.blit_unclipped(source, method, region, dest_x, dest_y),
{
    let once = dest.blit_unclipped(source, method, region, dest_x, dest_y);
    let twice = once.blit_unclipped(source, method, region, dest_x, dest_y);
    lemma_blit_unclipped(dest, source, method, region, dest_x, dest_y);
    lemma_blit_unclipped(once, source, method, region, dest_x, dest_y);
    assert forall|x: int, y: int| once.in_bounds(x, y) implies #[trigger] once.pixel(x, y)
        == twice.pixel(x, y) by {
        assert(once.pixel(x, y) == dest.blit_pixel(source, method, region, dest_x, dest_y, x, y));
        assert(twice.pixel(x, y) == once.blit_pixel(source, method, region, dest_x, dest_y, x, y));
    }
    lemma_same_pixels(once, twice);
}

/// A clipped transfer that is made a second time with the same arguments
/// changes nothing.
pub proof fn lemma_blit_twice(
    dest: Raster,
    source: Raster,
    method: BlitMethod,
    region: Rect,
    dest_x: int,
    dest_y: int,
)
    requires
        dest.wf(),
    ensures
        dest.blit(source, method, region, dest_x, dest_y).blit(
            source,
            method,
            region,
            dest_x,
            dest_y,
        ) == dest.blit(source, method, region, dest_x, dest_y),
{
    match dest.clip_transfer(source, region, dest_x, dest_y) {
        Some(left) => {
            lemma_blit_unclipped(
                dest,
                source,
                method,
                left.src_region,
                left.dest_x,
                left.dest_y,
            );
            lemma_blit_unclipped_twice(
                dest,
                source,
                method,
                left.src_region,
                left.dest_x,
                left.dest_y,
            );
        },
        None => {},
    }
}

/// A mirrored transfer of a region draws what the same transfer without
/// mirroring draws from a source in which the region's content is mirrored:
/// its columns reversed for a horizontal flip, its rows reversed for a
/// vertical flip, and the region turned by half a turn for both.
pub proof fn lemma_flip_is_mirrored_source(
    dest: Raster,
    source: Raster,
    method: BlitMethod,
    region: Rect,
    dest_x: int,
    dest_y: int,
)
    requires
        dest.wf(),
        source.wf(),
        source.contains_region(region),
    ensures
        dest.blit_unclipped(source, method, region, dest_x, dest_y) == dest.blit_unclipped(
            source.mirrored(region, method.spec_horizontal_flip(), method.spec_vertical_flip()),
            method.spec_unflipped(),
            region,
            dest_x,
            dest_y,
        ),
{
    let flips_x = method.spec_horizontal_flip();
    let flips_y = method.spec_vertical_flip();
    let turned = source.mirrored(region, flips_x, flips_y);
    let plain = method.spec_unflipped();
    let a = dest.blit_unclipped(source, method, region, dest_x, dest_y);
    let b = dest.blit_unclipped(turned, plain, region, dest_x, dest_y);
    lemma_blit_unclipped(dest, source, method, region, dest_x, dest_y);
    lemma_blit_unclipped(dest, turned, plain, region, dest_x, dest_y);
    lemma_mirrored(source, region, flips_x, flips_y);
    assert forall|x: int, y: int| dest.in_bounds(x, y) implies #[trigger] a.pixel(x, y) == b.pixel(
        x,
        y,
    ) by {
        assert(a.pixel(x, y) == dest.blit_pixel(source, method, region, dest_x, dest_y, x, y));
        assert(b.pixel(x, y) == dest.blit_pixel(turned, plain, region, dest_x, dest_y, x, y));
        if dest_x <= x < dest_x + region.width && dest_y <= y < dest_y + region.height {
            let column = region.x + (x - dest_x);
            let row = region.y + (y - dest_y);
            assert(source.in_bounds(column, row));
            assert(turned.pixel(column, row) == source.mirrored_pixel(
                region,
                flips_x,
                flips_y,
                column,
                row,
            ));
        }
    }
    lemma_same_pixels(a, b);
}

/// A border that is drawn edge by edge is the frame drawn once, provided that
/// no pixel is inked twice and no edge is cut: the rectangle is at least two
/// pixels wide and two pixels high, and it lies in the clip rectangle.
pub proof fn lemma_frame_by_edges(r: Raster, x1: int, y1: int, x2: int, y2: int, ink: Ink)
    requires
        r.wf(),
        x1 != x2,
        y1 != y2,
        r.visible(x1, y1),
        r.visible(x2, y2),
    ensures
        r.paint_frame_by_edges(x1, y1, x2, y2, ink) == r.paint(Shape::Frame { x1, y1, x2, y2 }, ink),
{
    let left = spec_min(x1, x2);
    let right = spec_max(x1, x2);
    let top = spec_min(y1, y2);
    let bottom = spec_max(y1, y2);
    let top_edge = Shape::Area { left: left + 1, top, right: right - 1, bottom: top };
    let bottom_edge = Shape::Area { left: left + 1, top: bottom, right: right - 1, bottom };
    let left_edge = Shape::Area { left, top, right: left, bottom };
    let right_edge = Shape::Area { left: right, top, right, bottom };
    let with_top = r.paint(top_edge, ink);
    let with_bottom = with_top.paint(bottom_edge, ink);
    let with_left = with_bottom.paint(left_edge, ink);
    let with_right = with_left.paint(right_edge, ink);
    lemma_paint(r, top_edge, ink);
    lemma_paint(with_top, bottom_edge, ink);
    lemma_paint(with_bottom, left_edge, ink);
    lemma_paint(with_left, right_edge, ink);
    assert(with_right == r.paint_frame_by_edges(x1, y1, x2, y2, ink));
    assert forall|x: int, y: int| r.in_bounds(x, y) implies #[trigger] with_right.pixel(x, y)
        == r.inked_pixel((Shape::Frame { x1, y1, x2, y2 }).covers(x, y), ink, x, y) by {
        assert(with_top.pixel(x, y) == r.painted_pixel(top_edge, ink, x, y));
        assert(with_bottom.pixel(x, y) == with_top.painted_pixel(bottom_edge, ink, x, y));
        assert(with_left.pixel(x, y) == with_bottom.painted_pixel(left_edge, ink, x, y));
        assert(with_right.pixel(x, y) == with_left.painted_pixel(right_edge, ink, x, y));
    }
    lemma_painted(r, with_right, Shape::Frame { x1, y1, x2, y2 }, ink);
}

} // verus!

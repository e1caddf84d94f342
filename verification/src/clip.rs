//! Clipping of a pixel transfer against the visible part of its destination.

use vstd::prelude::*;
use crate::arith::{spec_max, spec_min};
use crate::rect::Rect;

verus! {

/// One axis of a transfer after clipping: where the source span starts, how
/// long it is, and where it lands on the destination.
pub struct ClippedSpan {
    pub src_pos: int,
    pub len: int,
    pub dest_pos: int,
}

/// Clips one axis of a transfer. The source span starts at `src_pos` and is
/// `src_len` long; it is to land at `dest_pos` on a destination whose visible
/// span starts at `clip_pos` and is `clip_len` long.
///
/// What is drawn starts at `dest_pos` or at `clip_pos`, whichever comes
/// later, and ends where the span ends or at `clip_len`, whichever comes
/// first: the far end of the visible span is taken to lie `clip_len` from the
/// origin, which is where it lies when `clip_pos` is zero. A span that is cut
/// at the far end must also start no later than the last visible position.
/// The source span moves forward by what was cut at the near end. `None` means
/// that nothing is left to draw.
pub open spec fn clip_span(
    clip_pos: int,
    clip_len: int,
    src_pos: int,
    src_len: int,
    dest_pos: int,
) -> Option<ClippedSpan> {
    let start = spec_max(dest_pos, clip_pos);
    let end = spec_min(dest_pos + src_len, clip_len);
    let cut_at_far_end = dest_pos + src_len > clip_len;
    if start < end && (cut_at_far_end ==> start <= clip_pos + clip_len - 1) {
        Some(
            ClippedSpan {
                src_pos: src_pos + (start - dest_pos),
                len: end - start,
                dest_pos: start,
            },
        )
    } else {
        None
    }
}

/// The columns of a transfer of `src` to `dest_x`, clipped against `clip`.
pub open spec fn clip_columns(clip: Rect, src: Rect, dest_x: int) -> Option<ClippedSpan> {
    clip_span(clip.x as int, clip.width as int, src.x as int, src.width as int, dest_x)
}

/// The rows of a transfer of `src` to `dest_y`, clipped against `clip`.
pub open spec fn clip_rows(clip: Rect, src: Rect, dest_y: int) -> Option<ClippedSpan> {
    clip_span(clip.y as int, clip.height as int, src.y as int, src.height as int, dest_y)
}

/// A transfer after clipping: the part of the source region that is left, and
/// where its top-left pixel lands.
pub struct ClippedBlit {
    pub src_region: Rect,
    pub dest_x: int,
    pub dest_y: int,
}

/// A transfer of `src` to `(dest_x, dest_y)`, clipped against `clip` on each
/// axis by itself. `None` means that nothing is left to draw.
pub open spec fn clipped_blit(clip: Rect, src: Rect, dest_x: int, dest_y: int) -> Option<
    ClippedBlit,
> {
    match (clip_columns(clip, src, dest_x), clip_rows(clip, src, dest_y)) {
        (Some(columns), Some(rows)) => Some(
            ClippedBlit {
                src_region: Rect {
                    x: columns.src_pos as i32,
                    y: rows.src_pos as i32,
                    width: columns.len as u32,
                    height: rows.len as u32,
                },
                dest_x: columns.dest_pos,
                dest_y: rows.dest_pos,
            },
        ),
        _ => None,
    }
}

/// A transfer of `src` to `(dest_x, dest_y)` lies wholly inside `clip`, and
/// short of the clip rectangle's extent measured from the origin.
pub open spec fn fits_unclipped(clip: Rect, src: Rect, dest_x: int, dest_y: int) -> bool {
    &&& src.has_area()
    &&& clip.x <= dest_x
    &&& clip.y <= dest_y
    &&& dest_x + src.width <= clip.x + clip.width
    &&& dest_y + src.height <= clip.y + clip.height
    &&& dest_x + src.width <= clip.width
    &&& dest_y + src.height <= clip.height
}

/// Clips one axis; the result is `clip_span` of the same values.
fn clip_axis(clip_pos: i32, clip_len: u32, src_pos: i32, src_len: u32, dest_pos: i32) -> (r:
    Option<(i32, u32, i32)>)
    requires
        src_pos + src_len - 1 <= i32::MAX,
    ensures
        r.is_some() == clip_span(
            clip_pos as int,
            clip_len as int,
            src_pos as int,
            src_len as int,
            dest_pos as int,
        ).is_some(),
        r matches Some(c) ==> clip_span(
            clip_pos as int,
            clip_len as int,
            src_pos as int,
            src_len as int,
            dest_pos as int,
        ) == Some(ClippedSpan { src_pos: c.0 as int, len: c.1 as int, dest_pos: c.2 as int }),
{
    let mut pos: i64 = src_pos as i64;
    let mut len: i64 = src_len as i64;
    let mut at: i64 = dest_pos as i64;

    if at < clip_pos as i64 {
        if at + len - 1 < clip_pos as i64 {
            return None;
        }
        let cut: i64 = clip_pos as i64 - at;
        pos = pos + cut;
        len = len - cut;
        at = clip_pos as i64;
    }
    if at > clip_len as i64 - len {
        if at > clip_pos as i64 + clip_len as i64 - 1 {
            return None;
        }
        len = clip_len as i64 - at;
    }
    if len <= 0 {
        return None;
    }
    Some((pos as i32, len as u32, at as i32))
}

/// Confines a transfer to the visible part of its destination.
///
/// `src_blit_region` is the part of the source that is to be copied, and
/// `(dest_x, dest_y)` is where its top-left pixel is to land. Each axis is
/// clipped on its own as `clip_span` describes. Where something is left to
/// draw the function returns `true` with the region and the position
/// narrowed; otherwise it returns `false` and changes nothing.
///
/// The right and bottom edges of the source region have to be `i32` values.
pub fn clip_blit(
    dest_clip_region: &Rect,
    src_blit_region: &mut Rect,
    dest_x: &mut i32,
    dest_y: &mut i32,
) -> (visible: bool)
    requires
        old(src_blit_region).spec_right() <= i32::MAX,
        old(src_blit_region).spec_bottom() <= i32::MAX,
    ensures
        visible == clipped_blit(
            *dest_clip_region,
            *old(src_blit_region),
            *old(dest_x) as int,
            *old(dest_y) as int,
        ) is Some,
        visible ==> ({
            let left = clipped_blit(
                *dest_clip_region,
                *old(src_blit_region),
                *old(dest_x) as int,
                *old(dest_y) as int,
            )->0;
            &&& *final(src_blit_region) == left.src_region
            &&& *final(dest_x) == left.dest_x
            &&& *final(dest_y) == left.dest_y
        }),
        !visible ==> ({
            &&& *final(src_blit_region) == *old(src_blit_region)
            &&& *final(dest_x) == *old(dest_x)
            &&& *final(dest_y) == *old(dest_y)
        }),
        // What is left is not empty, lies in the source region, and keeps
        // each source pixel facing the destination pixel that it faced before.
        visible ==> ({
            &&& final(src_blit_region).has_area()
            &&& old(src_blit_region).spec_contains_rect(final(src_blit_region))
            &&& *final(dest_x) - *old(dest_x) == final(src_blit_region).x - old(src_blit_region).x
            &&& *final(dest_y) - *old(dest_y) == final(src_blit_region).y - old(src_blit_region).y
        }),
        // What is left starts inside the clip rectangle and ends short of its
        // extent.
        visible ==> ({
            &&& dest_clip_region.x <= *final(dest_x)
            &&& dest_clip_region.y <= *final(dest_y)
            &&& *final(dest_x) + final(src_blit_region).width <= dest_clip_region.width
            &&& *final(dest_y) + final(src_blit_region).height <= dest_clip_region.height
        }),
        // A transfer that already fits is passed through untouched.
        fits_unclipped(
            *dest_clip_region,
            *old(src_blit_region),
            *old(dest_x) as int,
            *old(dest_y) as int,
        ) ==> ({
            &&& visible
            &&& *final(src_blit_region) == *old(src_blit_region)
            &&& *final(dest_x) == *old(dest_x)
            &&& *final(dest_y) == *old(dest_y)
        }),
        // A transfer that ends before the clip rectangle begins is dropped.
        *old(dest_x) + old(src_blit_region).width <= dest_clip_region.x ==> !visible,
        *old(dest_y) + old(src_blit_region).height <= dest_clip_region.y ==> !visible,
{
    let columns = clip_axis(
        dest_clip_region.x,
        dest_clip_region.width,
        src_blit_region.x,
        src_blit_region.width,
        *dest_x,
    );
    let rows = clip_axis(
        dest_clip_region.y,
        dest_clip_region.height,
        src_blit_region.y,
        src_blit_region.height,
        *dest_y,
    );
    match (columns, rows) {
        (Some(c), Some(r)) => {
            src_blit_region.x = c.0;
            src_blit_region.width = c.1;
            *dest_x = c.2;
            src_blit_region.y = r.0;
            src_blit_region.height = r.1;
            *dest_y = r.2;
            true
        },
        _ => false,
    }
}

} // verus!

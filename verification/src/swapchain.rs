//! Choosing how the swapchain presents: the preferred present mode among
//! those the surface offers, and the preferred surface format among those
//! it supports.

use vstd::prelude::*;

verus! {

/// The immediate present mode, taken when offered.
pub const PRESENT_MODE_MAILBOX: u32 = 1;

/// The queued present mode every surface offers.
pub const PRESENT_MODE_FIFO: u32 = 2;

/// The eight-bit blue-green-red-alpha format with nonlinear encoding.
pub const FORMAT_B8G8R8A8_SRGB: u32 = 50;

/// The standard nonlinear color space.
pub const COLOR_SPACE_SRGB_NONLINEAR: u32 = 0;

/// A pixel format paired with a color space, as the surface reports them.
#[derive(Clone, Copy, Debug, PartialEq, Eq, Structural)]
pub struct SurfaceFormat {
    pub format: u32,
    pub color_space: u32,
}

/// Whether the list offers the given present mode.
pub open spec fn spec_has_mode(modes: Seq<u32>, mode: u32) -> bool {
    exists|i: int| 0 <= i < modes.len() && modes[i] == mode
}

/// The chosen present mode: the immediate one when offered, else the queued
/// one.
pub open spec fn spec_present_mode(modes: Seq<u32>) -> u32 {
    if spec_has_mode(modes, PRESENT_MODE_MAILBOX) {
        PRESENT_MODE_MAILBOX
    } else {
        PRESENT_MODE_FIFO
    }
}

/// The first entry with the preferred pixel format, if any.
pub open spec fn spec_first_preferred(formats: Seq<SurfaceFormat>) -> Option<SurfaceFormat>
    decreases formats.len(),
{
    if formats.len() == 0 {
        None
    } else if formats[0].format == FORMAT_B8G8R8A8_SRGB {
        Some(formats[0])
    } else {
        spec_first_preferred(formats.drop_first())
    }
}

/// Some entry is the fully preferred pair of format and color space.
pub open spec fn spec_has_wanted(formats: Seq<SurfaceFormat>) -> bool {
    exists|i: int|
        0 <= i < formats.len() && (#[trigger] formats[i]).format == FORMAT_B8G8R8A8_SRGB
            && formats[i].color_space == COLOR_SPACE_SRGB_NONLINEAR
}

/// The chosen surface format: the fully preferred pair when supported, else
/// the first entry with the preferred pixel format, else the first entry of
/// all; nothing when the surface reports no formats.
pub open spec fn spec_surface_format(formats: Seq<SurfaceFormat>) -> Option<SurfaceFormat> {
    if formats.len() == 0 {
        None
    } else if spec_has_wanted(formats) {
        Some(SurfaceFormat { format: FORMAT_B8G8R8A8_SRGB, color_space: COLOR_SPACE_SRGB_NONLINEAR })
    } else {
        match spec_first_preferred(formats) {
            Some(f) => Some(f),
            None => Some(formats[0]),
        }
    }
}

/// Choose the present mode from what the surface offers, exactly as
/// `spec_present_mode` says.
pub fn select_present_mode(modes: &Vec<u32>) -> (r: u32)
    ensures
        r == spec_present_mode(modes@),
{
    let n = modes.len();
    let mut i: usize = 0;
    while i < n
        invariant
            i <= n,
            n == modes@.len(),
            forall|j: int| 0 <= j < i ==> #[trigger] modes@[j] != PRESENT_MODE_MAILBOX,
        decreases n - i,
    {
        if modes[i] == PRESENT_MODE_MAILBOX {
            return PRESENT_MODE_MAILBOX;
        }
        i += 1;
    }
    proof {
        assert(!spec_has_mode(modes@, PRESENT_MODE_MAILBOX));
    }
    PRESENT_MODE_FIFO
}

/// Choose the surface format from what the surface supports, exactly as
/// `spec_surface_format` says.
pub fn select_surface_format(formats: &Vec<SurfaceFormat>) -> (r: Option<SurfaceFormat>)
    ensures
        r == spec_surface_format(formats@),
{
    let n = formats.len();
    if n == 0 {
        return None;
    }
    let mut i: usize = 0;
    while i < n
        invariant
            i <= n,
            n == formats@.len(),
            forall|j: int|
                0 <= j < i ==> !((#[trigger] formats@[j]).format == FORMAT_B8G8R8A8_SRGB
                    && formats@[j].color_space == COLOR_SPACE_SRGB_NONLINEAR),
        decreases n - i,
    {
        let f = formats[i];
        if f.format == FORMAT_B8G8R8A8_SRGB && f.color_space == COLOR_SPACE_SRGB_NONLINEAR {
            proof {
                assert(spec_has_wanted(formats@)) by {
                    assert((formats@[i as int]).format == FORMAT_B8G8R8A8_SRGB
                        && formats@[i as int].color_space == COLOR_SPACE_SRGB_NONLINEAR);
                }
            }
            return Some(SurfaceFormat {
                format: FORMAT_B8G8R8A8_SRGB,
                color_space: COLOR_SPACE_SRGB_NONLINEAR,
            });
        }
        i += 1;
    }
    proof {
        assert(!spec_has_wanted(formats@));
    }
    let mut k: usize = 0;
    proof {
        assert(formats@.skip(0) =~= formats@);
    }
    while k < n
        invariant
            k <= n,
            n == formats@.len(),
            spec_first_preferred(formats@) == spec_first_preferred(formats@.skip(k as int)),
            !spec_has_wanted(formats@),
        decreases n - k,
    {
        proof {
            assert(formats@.skip(k as int)[0] == formats@[k as int]);
            assert(formats@.skip(k as int).drop_first() =~= formats@.skip(k as int + 1));
        }
        let f = formats[k];
        if f.format == FORMAT_B8G8R8A8_SRGB {
            return Some(f);
        }
        k += 1;
    }
    proof {
        assert(formats@.skip(n as int).len() == 0);
    }
    Some(formats[0])
}

} // verus!

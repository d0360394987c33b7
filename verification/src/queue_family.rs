//! Choosing queue families on a physical device: one family that can do
//! graphics, compute, and transfer at once, and one that can present to the
//! surface, falling back to the main family.

use vstd::prelude::*;

verus! {

/// The capability bits of the main queue family: graphics, compute, and
/// transfer together.
pub const MAIN_QUEUE_FLAGS: u32 = 7;

/// What the device reports of one queue family: its capability bits and
/// whether it can present to the surface.
#[derive(Clone, Copy, Debug, PartialEq, Eq, Structural)]
pub struct QueueFamilyDesc {
    pub flags: u32,
    pub present_support: bool,
}

/// The chosen families, by index.
#[derive(Clone, Copy, Debug, PartialEq, Eq, Structural)]
pub struct QueueFamilyIndices {
    pub main: u32,
    pub present: u32,
}

/// The scan over the families, mirroring the selection order: the first
/// fully capable family becomes the main one and is skipped for presenting;
/// of the remaining present-capable families the last wins; the present
/// family falls back to the main one.
pub open spec fn spec_queue_scan(
    fams: Seq<QueueFamilyDesc>,
    i: int,
    main: Option<u32>,
    present: Option<u32>,
) -> (Option<u32>, Option<u32>)
    decreases fams.len() - i,
{
    if i < 0 || i >= fams.len() {
        (main, present)
    } else if main is None && fams[i].flags & MAIN_QUEUE_FLAGS == MAIN_QUEUE_FLAGS {
        spec_queue_scan(fams, i + 1, Some(i as u32), present)
    } else if fams[i].present_support {
        spec_queue_scan(fams, i + 1, main, Some(i as u32))
    } else {
        spec_queue_scan(fams, i + 1, main, present)
    }
}

/// What the whole selection yields: the scanned pair with the present
/// fallback applied, or nothing when no family can be the main one.
pub open spec fn spec_queue_indices(fams: Seq<QueueFamilyDesc>) -> Option<QueueFamilyIndices> {
    let scanned = spec_queue_scan(fams, 0, None, None);
    match scanned.0 {
        None => None,
        Some(m) => Some(
            QueueFamilyIndices {
                main: m,
                present: match scanned.1 {
                    Some(p) => p,
                    None => m,
                },
            },
        ),
    }
}

impl QueueFamilyIndices {
    /// Choose the main and present families from what the device reports,
    /// exactly as `spec_queue_indices` says.
    pub fn new(families: &Vec<QueueFamilyDesc>) -> (r: Option<QueueFamilyIndices>)
        requires
            families@.len() <= 0xffff_ffff,
        ensures
            r == spec_queue_indices(families@),
    {
        let n = families.len();
        let mut main: Option<u32> = None;
        let mut present: Option<u32> = None;
        let mut i: usize = 0;
        while i < n
            invariant
                i <= n,
                n == families@.len(),
                n <= 0xffff_ffff,
                spec_queue_scan(families@, 0, None, None) == spec_queue_scan(
                    families@,
                    i as int,
                    main,
                    present,
                ),
            decreases n - i,
        {
            let f = families[i];
            if main.is_none() && f.flags & MAIN_QUEUE_FLAGS == MAIN_QUEUE_FLAGS {
                main = Some(i as u32);
            } else if f.present_support {
                present = Some(i as u32);
            }
            i += 1;
        }
        match main {
            None => None,
            Some(m) => Some(
                QueueFamilyIndices {
                    main: m,
                    present: match present {
                        Some(p) => p,
                        None => m,
                    },
                },
            ),
        }
    }
}

/// The scan over the devices' rates, mirroring the selection order: an
/// unsuitable device (no rate) is skipped, and a suitable one replaces the
/// best seen only when its rate is strictly greater — so the first of
/// equal rates wins.
pub open spec fn spec_pick_scan(rates: Seq<Option<u32>>, i: int, best: Option<(int, u32)>) -> Option<
    (int, u32),
>
    decreases rates.len() - i,
{
    if i < 0 || i >= rates.len() {
        best
    } else {
        match rates[i] {
            None => spec_pick_scan(rates, i + 1, best),
            Some(rate) => {
                let take = match best {
                    None => true,
                    Some(b) => b.1 < rate,
                };
                spec_pick_scan(
                    rates,
                    i + 1,
                    if take {
                        Some((i, rate))
                    } else {
                        best
                    },
                )
            },
        }
    }
}

/// The chosen device: the first suitable one holding the maximum rate, or
/// nothing when no device is suitable.
pub open spec fn spec_pick_device(rates: Seq<Option<u32>>) -> Option<int> {
    match spec_pick_scan(rates, 0, None) {
        None => None,
        Some(b) => Some(b.0),
    }
}

/// Choose the physical device from each one's reported rate (`None` for an
/// unsuitable device), exactly as `spec_pick_device` says.
pub fn pick_device(rates: &Vec<Option<u32>>) -> (r: Option<usize>)
    ensures
        ({
            let s = spec_pick_device(rates@);
            match r {
                Some(i) => s == Some(i as int),
                None => s is None,
            }
        }),
{
    let n = rates.len();
    let mut best: Option<(usize, u32)> = None;
    let mut i: usize = 0;
    while i < n
        invariant
            i <= n,
            n == rates@.len(),
            spec_pick_scan(rates@, 0, None) == spec_pick_scan(
                rates@,
                i as int,
                match best {
                    None => None,
                    Some(b) => Some((b.0 as int, b.1)),
                },
            ),
            best matches Some(b) ==> (b.0 as int) < n,
        decreases n - i,
    {
        match rates[i] {
            None => {},
            Some(rate) => {
                let take = match best {
                    None => true,
                    Some(b) => b.1 < rate,
                };
                if take {
                    best = Some((i, rate));
                }
            },
        }
        i += 1;
    }
    match best {
        None => None,
        Some(b) => Some(b.0),
    }
}

} // verus!

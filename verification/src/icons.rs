//! Which tray icon image is shown: the variant the user chose, at the size
//! closest to what the system tray draws.

use vstd::prelude::*;

verus! {

/// The tray icon in colour, or in one colour for themed task bars.
#[derive(Debug, Clone, Copy, PartialEq, Eq, Structural)]
pub enum TrayIconVariant {
    Color,
    Monochrome,
}

/// The variant for the user's choice: monochrome when asked for, in colour otherwise.
pub fn tray_icon_variant(monochrome: bool) -> (r: TrayIconVariant)
    ensures
        r == if monochrome {
            TrayIconVariant::Monochrome
        } else {
            TrayIconVariant::Color
        },
{
    if !monochrome {
        return TrayIconVariant::Color;
    }
    TrayIconVariant::Monochrome
}

/// The source image size used where the system reports no tray icon size.
pub const DEFAULT_TRAY_SOURCE_SIZE: u32 = 32;

/// The size of source image wanted for a tray slot of `slot_size` pixels:
/// twice the slot, so that it stays sharp when scaled (twice an `i32` never
/// overflows a `u32`); the default where the slot size is not positive.
pub fn desired_tray_source_size(slot_size: i32) -> (r: u32)
    ensures
        r == if slot_size <= 0 {
            DEFAULT_TRAY_SOURCE_SIZE as int
        } else {
            2 * slot_size
        },
{
    if slot_size <= 0 {
        return DEFAULT_TRAY_SOURCE_SIZE;
    }
    (slot_size as u32) * 2
}

/// One tray icon image, in both variants, as RGBA bytes of a square of
/// `size` pixels.
#[derive(Debug, Clone)]
pub struct TrayIconAsset {
    pub size: u32,
    pub color: Vec<u8>,
    pub mono: Vec<u8>,
}

/// How far a size is from the wanted one.
pub open spec fn size_gap(size: u32, desired: u32) -> int {
    if size >= desired {
        size - desired
    } else {
        desired - size
    }
}

/// The asset whose size is closest to `desired`, the first of them on a tie.
pub fn tray_icon_asset(assets: &[TrayIconAsset], desired: u32) -> (i: usize)
    requires
        assets@.len() > 0,
    ensures
        i < assets@.len(),
        forall|j: int|
            0 <= j < assets@.len() ==> size_gap(assets@[i as int].size, desired) <= size_gap(
                #[trigger] assets@[j].size,
                desired,
            ),
        forall|j: int|
            0 <= j < i ==> size_gap(assets@[i as int].size, desired) < size_gap(
                #[trigger] assets@[j].size,
                desired,
            ),
{
    let n = assets.len();
    let mut best: usize = 0;
    let mut k: usize = 1;
    while k < n
        invariant
            n == assets@.len(),
            n > 0,
            best < k <= n,
            forall|j: int|
                0 <= j < k ==> size_gap(assets@[best as int].size, desired) <= size_gap(
                    #[trigger] assets@[j].size,
                    desired,
                ),
            forall|j: int|
                0 <= j < best ==> size_gap(assets@[best as int].size, desired) < size_gap(
                    #[trigger] assets@[j].size,
                    desired,
                ),
        decreases n - k,
    {
        let gap_k = if assets[k].size >= desired {
            assets[k].size - desired
        } else {
            desired - assets[k].size
        };
        let gap_best = if assets[best].size >= desired {
            assets[best].size - desired
        } else {
            desired - assets[best].size
        };
        if gap_k < gap_best {
            best = k;
        }
        k = k + 1;
    }
    best
}

/// An RGBA image of a square of `size` pixels.
#[derive(Debug, Clone)]
pub struct TrayIconImage {
    pub rgba: Vec<u8>,
    pub size: u32,
}

/// The tray icon image: the variant's bytes of the asset closest in size to `desired`.
pub fn tray_icon(variant: TrayIconVariant, assets: &[TrayIconAsset], desired: u32) -> (r:
    TrayIconImage)
    requires
        assets@.len() > 0,
    ensures
        exists|i: int|
            {
                &&& 0 <= i < assets@.len()
                &&& forall|j: int|
                    0 <= j < assets@.len() ==> size_gap(#[trigger] assets@[i].size, desired)
                        <= size_gap(assets@[j].size, desired)
                &&& forall|j: int|
                    0 <= j < i ==> size_gap(#[trigger] assets@[i].size, desired) < size_gap(
                        assets@[j].size,
                        desired,
                    )
                &&& r.size == assets@[i].size
                &&& r.rgba@ == match variant {
                    TrayIconVariant::Color => assets@[i].color@,
                    TrayIconVariant::Monochrome => assets@[i].mono@,
                }
            },
{
    let i = tray_icon_asset(assets, desired);
    let asset = &assets[i];
    let rgba = match variant {
        TrayIconVariant::Color => asset.color.clone(),
        TrayIconVariant::Monochrome => asset.mono.clone(),
    };
    TrayIconImage { rgba, size: asset.size }
}

} // verus!

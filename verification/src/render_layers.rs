//! Render layer assignments of the two cameras.
//!
//! The 3D camera draws tiles, aircraft, sky and ground; the 2D camera is an
//! overlay for gizmos, labels and tinted overlays and never draws tiles. Each
//! function lists the layers one camera subscribes to, in ascending order.

use vstd::prelude::*;

verus! {

/// Names of the render layers.
pub struct RenderCategory;

impl RenderCategory {
    /// Aircraft, lights and scene roots.
    pub const DEFAULT: usize = 0;
    /// Tile mesh planes, in 2D and 3D.
    pub const TILES: usize = 1;
    /// Trails, navaids, runways.
    pub const GIZMOS: usize = 2;
    /// Day/night tint and weather overlays.
    pub const OVERLAYS_2D: usize = 4;
    /// Text labels.
    pub const LABELS: usize = 5;
    /// Ground plane (3D only).
    pub const GROUND: usize = 7;
    /// Star field (3D only).
    pub const SKY: usize = 8;
    /// Airspace volumes.
    pub const AIRSPACE: usize = 9;
    /// The immediate-mode UI.
    pub const UI: usize = 11;
    /// Tiles of the 2D view: the tile layer.
    pub const TILES_2D: usize = RenderCategory::TILES;
    /// Tiles of the 3D view: the tile layer.
    pub const TILES_3D: usize = RenderCategory::TILES;
}

/// Layers of the overlay camera in the 2D view.
pub fn layers_2d_map() -> (r: Vec<usize>)
    ensures
        r@ == seq![RenderCategory::GIZMOS, RenderCategory::OVERLAYS_2D, RenderCategory::LABELS],
{
    vec![RenderCategory::GIZMOS, RenderCategory::OVERLAYS_2D, RenderCategory::LABELS]
}

/// Layers of the overlay camera in the 3D view.
pub fn layers_3d_overlay() -> (r: Vec<usize>)
    ensures
        r@ == seq![RenderCategory::GIZMOS, RenderCategory::LABELS],
{
    vec![RenderCategory::GIZMOS, RenderCategory::LABELS]
}

/// Every layer the overlay camera may need.
pub fn layers_camera2d_all() -> (r: Vec<usize>)
    ensures
        r@ == seq![RenderCategory::GIZMOS, RenderCategory::OVERLAYS_2D, RenderCategory::LABELS],
{
    vec![RenderCategory::GIZMOS, RenderCategory::OVERLAYS_2D, RenderCategory::LABELS]
}

/// Layers of the world camera in the 2D view: aircraft and tiles.
pub fn layers_2d_aircraft() -> (r: Vec<usize>)
    ensures
        r@ == seq![RenderCategory::DEFAULT, RenderCategory::TILES],
{
    vec![RenderCategory::DEFAULT, RenderCategory::TILES]
}

/// Layers of the world camera in the 3D view.
pub fn layers_3d_world() -> (r: Vec<usize>)
    ensures
        r@ == seq![
            RenderCategory::DEFAULT,
            RenderCategory::TILES,
            RenderCategory::GROUND,
            RenderCategory::SKY,
            RenderCategory::AIRSPACE,
        ],
{
    vec![
        RenderCategory::DEFAULT,
        RenderCategory::TILES,
        RenderCategory::GROUND,
        RenderCategory::SKY,
        RenderCategory::AIRSPACE,
    ]
}

/// The overlay camera never draws tiles, the UI layer belongs to no camera,
/// and every overlay layer the 2D view uses is among those the overlay
/// camera may need.
pub proof fn lemma_overlay_layers_exclude_tiles()
    ensures
        !seq![RenderCategory::GIZMOS, RenderCategory::OVERLAYS_2D, RenderCategory::LABELS].contains(
            RenderCategory::TILES,
        ),
        !seq![RenderCategory::GIZMOS, RenderCategory::LABELS].contains(RenderCategory::TILES),
        !seq![
            RenderCategory::DEFAULT,
            RenderCategory::TILES,
            RenderCategory::GROUND,
            RenderCategory::SKY,
            RenderCategory::AIRSPACE,
        ].contains(RenderCategory::UI),
        RenderCategory::TILES_2D == RenderCategory::TILES,
        RenderCategory::TILES_3D == RenderCategory::TILES,
{
    let a = seq![RenderCategory::GIZMOS, RenderCategory::OVERLAYS_2D, RenderCategory::LABELS];
    let b = seq![RenderCategory::GIZMOS, RenderCategory::LABELS];
    let w = seq![
        RenderCategory::DEFAULT,
        RenderCategory::TILES,
        RenderCategory::GROUND,
        RenderCategory::SKY,
        RenderCategory::AIRSPACE,
    ];
    assert(forall|i: int| 0 <= i < a.len() ==> a[i] != RenderCategory::TILES);
    assert(forall|i: int| 0 <= i < b.len() ==> b[i] != RenderCategory::TILES);
    assert(forall|i: int| 0 <= i < w.len() ==> w[i] != RenderCategory::UI);
}

} // verus!

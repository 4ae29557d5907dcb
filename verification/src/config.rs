//! How far around the viewer chunks are kept, and which keys that makes.

use vstd::prelude::*;
use crate::constants::{
    CHUNK_SIZE, HEIGHT_BELOW, VERTICAL_BUFFER, VERTICAL_CHUNK_HEIGHT, VERTICAL_LAYERS,
};
use crate::keys::{chunk_coord, chunk_of, layer_base, ChunkKey, Viewpoint};

verus! {

/// The largest render distance that is accepted. It keeps every distance
/// that is computed, and its square, within `i64`.
pub const MAX_RENDER_DISTANCE: i64 = 1_000_000;

/// The outline of the region that is kept around the viewer.
#[derive(Copy, Clone, PartialEq, Eq, Debug, Structural)]
pub enum RangeShape {
    /// Every chunk whose distance from the viewer's chunk is within the
    /// render distance along x and along z.
    Square,
    /// Of those chunks, the ones whose centre is no farther from the viewer
    /// than the render distance in cells.
    Disc,
}

/// Why a configuration is refused.
#[derive(Copy, Clone, PartialEq, Eq, Debug, Structural)]
pub enum ConfigError {
    /// The render distance is below zero.
    NegativeRenderDistance,
    /// The render distance is above `MAX_RENDER_DISTANCE`.
    RenderDistanceTooLarge,
}

/// The settings of the streaming, checked once when they are made.
#[derive(Copy, Clone, PartialEq, Eq, Debug, Structural)]
pub struct StreamConfig {
    render_distance: i64,
    shape: RangeShape,
}

impl StreamConfig {
    /// The render distance, in chunks.
    pub closed spec fn distance(self) -> int {
        self.render_distance as int
    }

    /// The outline of the region kept.
    pub closed spec fn outline(self) -> RangeShape {
        self.shape
    }

    /// The render distance lies within `0 ..= MAX_RENDER_DISTANCE`.
    pub open spec fn wf(self) -> bool {
        0 <= self.distance() <= MAX_RENDER_DISTANCE
    }

    /// Checks and takes the settings: a render distance in chunks, and the
    /// outline of the region kept.
    pub fn new(render_distance: i64, shape: RangeShape) -> (made: Result<StreamConfig, ConfigError>)
        ensures
            render_distance < 0 ==> made == Err::<StreamConfig, ConfigError>(
                ConfigError::NegativeRenderDistance,
            ),
            render_distance > MAX_RENDER_DISTANCE ==> made == Err::<StreamConfig, ConfigError>(
                ConfigError::RenderDistanceTooLarge,
            ),
            0 <= render_distance <= MAX_RENDER_DISTANCE ==> made is Ok,
            made matches Ok(c) ==> c.wf() && c.distance() == render_distance && c.outline()
                == shape,
    {
        if render_distance < 0 {
            Err(ConfigError::NegativeRenderDistance)
        } else if render_distance > MAX_RENDER_DISTANCE {
            Err(ConfigError::RenderDistanceTooLarge)
        } else {
            Ok(StreamConfig { render_distance, shape })
        }
    }

    /// The render distance, in chunks.
    pub fn render_distance(&self) -> (d: i64)
        ensures
            d == self.distance(),
    {
        self.render_distance
    }

    /// The outline of the region kept.
    pub fn shape(&self) -> (s: RangeShape)
        ensures
            s == self.outline(),
    {
        self.shape
    }
}

/// Whether the vertical layer `layer` is within reach of a viewer at height
/// `view_y`: the layer exists, and its base is no farther from the viewer
/// than `VERTICAL_BUFFER` chunk sides.
pub open spec fn layer_in_reach(layer: int, view_y: int) -> bool {
    &&& 0 <= layer < VERTICAL_LAYERS
    &&& -(VERTICAL_BUFFER * CHUNK_SIZE) <= layer_base(layer) - view_y <= VERTICAL_BUFFER
        * CHUNK_SIZE
}

/// Whether the centre of the chunk `(chunk_x, chunk_z)` is no farther from
/// the viewer, measured on the ground, than `distance` chunk sides.
pub open spec fn centre_in_disc(chunk_x: int, chunk_z: int, viewpoint: Viewpoint, distance: int)
    -> bool {
    let off_x = chunk_x * CHUNK_SIZE + CHUNK_SIZE / 2 - viewpoint.x;
    let off_z = chunk_z * CHUNK_SIZE + CHUNK_SIZE / 2 - viewpoint.z;
    off_x * off_x + off_z * off_z <= (distance * CHUNK_SIZE) * (distance * CHUNK_SIZE)
}

/// Whether the key should be resident for this viewer. Its chunk is within
/// the render distance of the viewer's chunk along x and along z; with the
/// outline `Disc` the chunk's centre is also within the render distance in
/// cells; and its layer is within reach of the viewer's height.
pub open spec fn desired(key: ChunkKey, viewpoint: Viewpoint, config: StreamConfig) -> bool {
    let dx = key.chunk_x - chunk_of(viewpoint.x as int);
    let dz = key.chunk_z - chunk_of(viewpoint.z as int);
    &&& -config.distance() <= dx <= config.distance()
    &&& -config.distance() <= dz <= config.distance()
    &&& config.outline() == RangeShape::Disc ==> centre_in_disc(
        key.chunk_x as int,
        key.chunk_z as int,
        viewpoint,
        config.distance(),
    )
    &&& layer_in_reach(key.vertical_layer as int, viewpoint.y as int)
}

/// Whether the key should be resident for this viewer.
pub fn is_desired(key: &ChunkKey, viewpoint: &Viewpoint, config: &StreamConfig) -> (wanted: bool)
    requires
        config.wf(),
    ensures
        wanted == desired(*key, *viewpoint, *config),
{
    let reach: i64 = config.render_distance();
    let dx: i64 = key.chunk_x as i64 - chunk_coord(viewpoint.x) as i64;
    let dz: i64 = key.chunk_z as i64 - chunk_coord(viewpoint.z) as i64;
    if dx < -reach || dx > reach || dz < -reach || dz > reach {
        return false;
    }
    if key.vertical_layer < 0 || key.vertical_layer as i64 >= VERTICAL_LAYERS as i64 {
        return false;
    }
    let side: i64 = CHUNK_SIZE as i64;
    assert(side == 20);
    let tall: i64 = VERTICAL_CHUNK_HEIGHT as i64;
    let base: i64 = key.vertical_layer as i64 * tall - HEIGHT_BELOW as i64;
    let rise: i64 = base - viewpoint.y as i64;
    let limit: i64 = VERTICAL_BUFFER * side;
    if rise < -limit || rise > limit {
        return false;
    }
    match config.shape() {
        RangeShape::Square => true,
        RangeShape::Disc => {
            let off_x: i64 = key.chunk_x as i64 * side + side / 2 - viewpoint.x as i64;
            let off_z: i64 = key.chunk_z as i64 * side + side / 2 - viewpoint.z as i64;
            let radius: i64 = reach * side;
            assert(-20_000_030 <= off_x <= 20_000_030);
            assert(-20_000_030 <= off_z <= 20_000_030);
            assert(0 <= off_x * off_x <= 400_001_200_000_900 && 0 <= off_z * off_z
                <= 400_001_200_000_900 && 0 <= radius * radius <= 400_000_000_000_000)
                by (nonlinear_arith)
                requires
                    -20_000_030 <= off_x <= 20_000_030,
                    -20_000_030 <= off_z <= 20_000_030,
                    0 <= radius <= 20_000_000,
            ;
            off_x * off_x + off_z * off_z <= radius * radius
        },
    }
}

} // verus!

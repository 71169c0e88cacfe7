use crate::decimal::{decimal, push_decimal};
use crate::mercator::lemma_span_times_count;
use crate::tiles::MapTiles;
use vstd::arithmetic::div_mod::lemma_fundamental_div_mod_converse;
use vstd::prelude::*;
use vstd::string::StringExecFns;

verus! {

/// One tile of the pyramid: its zoom level, its column and its row.
#[derive(Clone, Copy, Debug, PartialEq, Eq, Structural)]
pub struct TileId {
    pub zoom: i32,
    pub x: i32,
    pub y: i32,
}

/// The tile at place `k` when the tiles of `grid` are taken column by
/// column from the west, each column from the north.
pub open spec fn tile_at(grid: MapTiles, k: int) -> TileId {
    TileId {
        zoom: grid.zoom,
        x: (grid.x_tile_min + k / grid.ny()) as i32,
        y: (grid.y_tile_min + k % grid.ny()) as i32,
    }
}

/// The tiles of `grid`, column by column from the west, each column from the
/// north.
pub open spec fn tiles_of(grid: MapTiles) -> Seq<TileId> {
    Seq::new((grid.nx() * grid.ny()) as nat, |k: int| tile_at(grid, k))
}

/// Address of `tile` on `server`: the server, then zoom, column and row set
/// off by slashes, then the suffix of a PNG image.
pub open spec fn url_of(server: Seq<char>, tile: TileId) -> Seq<char> {
    server + "/"@ + decimal(tile.zoom as int) + "/"@ + decimal(tile.x as int) + "/"@ + decimal(
        tile.y as int,
    ) + ".png"@
}

/// Name of the file that holds the image of `tile`.
pub open spec fn file_name_of(tile: TileId) -> Seq<char> {
    "tile_"@ + decimal(tile.zoom as int) + "_"@ + decimal(tile.x as int) + "_"@ + decimal(
        tile.y as int,
    ) + ".png"@
}

/// Address of the image of `tile` on the tile server `server`.
pub fn tile_url(server: &str, tile: TileId) -> (url: String)
    ensures
        url@ == url_of(server@, tile),
{
    let mut url: String = String::from_str(server);
    url.append("/");
    push_decimal(&mut url, tile.zoom);
    url.append("/");
    push_decimal(&mut url, tile.x);
    url.append("/");
    push_decimal(&mut url, tile.y);
    url.append(".png");
    assert(url@ =~= url_of(server@, tile));
    url
}

/// Name of the file that holds the image of `tile`.
pub fn tile_file(tile: TileId) -> (name: String)
    ensures
        name@ == file_name_of(tile),
{
    let mut name: String = String::from_str("tile_");
    push_decimal(&mut name, tile.zoom);
    name.append("_");
    push_decimal(&mut name, tile.x);
    name.append("_");
    push_decimal(&mut name, tile.y);
    name.append(".png");
    assert(name@ =~= file_name_of(tile));
    name
}

/// The tiles of `map_tiles`, column by column from the west, each column
/// from the north: every tile of the grid once.
pub fn tile_ids(map_tiles: &MapTiles) -> (ids: Vec<TileId>)
    requires
        map_tiles.wf(),
    ensures
        ids@ == tiles_of(*map_tiles),
        ids@.len() == map_tiles.nx() * map_tiles.ny(),
        forall|i: int, j: int|
            0 <= i < map_tiles.nx() && 0 <= j < map_tiles.ny() ==> #[trigger] ids@[i
                * map_tiles.ny() + j] == (TileId {
                zoom: map_tiles.zoom,
                x: (map_tiles.x_tile_min + i) as i32,
                y: (map_tiles.y_tile_min + j) as i32,
            }),
{
    let ghost nx: int = map_tiles.nx();
    let ghost ny: int = map_tiles.ny();
    proof {
        lemma_span_times_count(map_tiles.zoom as int);
    }
    let mut ids: Vec<TileId> = Vec::new();
    let mut x: i32 = map_tiles.x_tile_min;
    while x <= map_tiles.x_tile_max
        invariant
            map_tiles.wf(),
            nx == map_tiles.nx(),
            ny == map_tiles.ny(),
            map_tiles.x_tile_max < 0x4000_0000,
            map_tiles.y_tile_max < 0x4000_0000,
            map_tiles.x_tile_min <= x <= map_tiles.x_tile_max + 1,
            ids@.len() == (x - map_tiles.x_tile_min) * ny,
            forall|k: int| 0 <= k < ids@.len() ==> ids@[k] == tile_at(*map_tiles, k),
        decreases map_tiles.x_tile_max + 1 - x,
    {
        let mut y: i32 = map_tiles.y_tile_min;
        while y <= map_tiles.y_tile_max
            invariant
                map_tiles.wf(),
                nx == map_tiles.nx(),
                ny == map_tiles.ny(),
                map_tiles.x_tile_max < 0x4000_0000,
                map_tiles.y_tile_max < 0x4000_0000,
                map_tiles.x_tile_min <= x <= map_tiles.x_tile_max,
                map_tiles.y_tile_min <= y <= map_tiles.y_tile_max + 1,
                ids@.len() == (x - map_tiles.x_tile_min) * ny + (y - map_tiles.y_tile_min),
                forall|k: int| 0 <= k < ids@.len() ==> ids@[k] == tile_at(*map_tiles, k),
            decreases map_tiles.y_tile_max + 1 - y,
        {
            proof {
                let i: int = x - map_tiles.x_tile_min;
                let j: int = y - map_tiles.y_tile_min;
                lemma_place_in_grid(i, j, ny);
            }
            ids.push(TileId { zoom: map_tiles.zoom, x, y });
            y = y + 1;
        }
        proof {
            let i: int = x - map_tiles.x_tile_min;
            assert((i + 1) * ny == i * ny + ny) by (nonlinear_arith);
        }
        x = x + 1;
    }
    proof {
        assert(ids@ =~= tiles_of(*map_tiles));
        assert forall|i: int, j: int| 0 <= i < nx && 0 <= j < ny implies #[trigger] ids@[i * ny
            + j] == (TileId {
            zoom: map_tiles.zoom,
            x: (map_tiles.x_tile_min + i) as i32,
            y: (map_tiles.y_tile_min + j) as i32,
        }) by {
            lemma_place_in_grid(i, j, ny);
            assert(i * ny + j < nx * ny) by (nonlinear_arith)
                requires
                    0 <= i < nx,
                    0 <= j < ny,
            ;
        }
    }
    ids
}

/// Row `j` of column `i` stands at place `i * rows + j`, and that place
/// stands for no other tile.
proof fn lemma_place_in_grid(i: int, j: int, rows: int)
    requires
        0 <= i,
        0 <= j < rows,
    ensures
        0 <= i * rows + j,
        (i * rows + j) / rows == i,
        (i * rows + j) % rows == j,
{
    assert(0 <= i * rows) by (nonlinear_arith)
        requires
            0 <= i,
            0 < rows,
    ;
    lemma_fundamental_div_mod_converse(i * rows + j, rows, i, j);
}

} // verus!
